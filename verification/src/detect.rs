//! Recognising simulator content from the entries of a source tree: the
//! built-in detectors, their evidence rules, and the ranking of their results.
use vstd::prelude::*;

use crate::decode::{decode_chars, decoded};
use crate::model::SourceFormat;
use crate::order::{insert_pos, lemma_insert_pos_step, lemma_sort_stable, sort_stable, sorted_by, strict_order};
use crate::paths::{has_ext, name_has_extension, SourceEntry};
use crate::text::{
    chars_of, contains, ends_with, eq_ignore_ascii_case, eq_ignore_case, has_substring, has_suffix, lower_seq, lowercase,
    slice_eq,
};

verus! {

/// How deep a scan descends below the root.
pub const MAX_SCAN_DEPTH: usize = 4;

/// How many entries a scan collects at most.
pub const MAX_SCAN_ENTRIES: usize = 20000;

/// How much of a `config.txt` the Trainz detector reads.
pub const CONFIG_PREFIX_BYTES: usize = 65536;

/// How much of a `.csv` file the BVE route check reads.
pub const ROUTE_PREFIX_BYTES: usize = 262144;

/// What one detector concluded about a source tree.
#[derive(Debug)]
pub struct Detection {
    pub detector: &'static str,
    pub format: SourceFormat,
    /// Between 0 and 100 for detections built with `none` and `add`.
    pub confidence: u8,
    /// One line per piece of evidence, in the order in which it was found.
    pub evidence: Vec<String>,
}

pub struct DetectionView {
    pub detector: Seq<char>,
    pub format: SourceFormat,
    pub confidence: u8,
    pub evidence: Seq<Seq<char>>,
}

pub open spec fn strings_view(v: Seq<String>) -> Seq<Seq<char>> {
    v.map_values(|s: String| s@)
}

/// Confidence after adding `points`: the sum, capped at 100.
pub open spec fn raised(confidence: u8, points: u8) -> u8 {
    if confidence + points >= 100 {
        100
    } else {
        (confidence + points) as u8
    }
}

pub open spec fn with_finding(d: DetectionView, points: u8, evidence: Seq<char>) -> DetectionView {
    DetectionView {
        confidence: raised(d.confidence, points),
        evidence: d.evidence.push(evidence),
        ..d
    }
}

/// A detection that starts empty and takes each finding (points, evidence) in turn.
pub open spec fn detection_of(
    detector: Seq<char>,
    format: SourceFormat,
    findings: Seq<(u8, Seq<char>)>,
) -> DetectionView
    decreases findings.len(),
{
    if findings.len() == 0 {
        DetectionView { detector, format, confidence: 0, evidence: Seq::empty() }
    } else {
        with_finding(
            detection_of(detector, format, findings.drop_last()),
            findings.last().0,
            findings.last().1,
        )
    }
}

/// Adding a finding to a detection is the detection of the findings with it appended.
pub proof fn lemma_detection_push(
    detector: Seq<char>,
    format: SourceFormat,
    findings: Seq<(u8, Seq<char>)>,
    points: u8,
    evidence: Seq<char>,
)
    ensures
        detection_of(detector, format, findings.push((points, evidence))) == with_finding(
            detection_of(detector, format, findings),
            points,
            evidence,
        ),
{
    assert(findings.push((points, evidence)).drop_last() =~= findings);
}

/// A detection keeps its detector and format, and has confidence only with findings.
pub proof fn lemma_detection_of_fields(detector: Seq<char>, format: SourceFormat, findings: Seq<(u8, Seq<char>)>)
    ensures
        detection_of(detector, format, findings).detector == detector,
        detection_of(detector, format, findings).format == format,
        detection_of(detector, format, findings).confidence > 0 ==> findings.len() > 0,
    decreases findings.len(),
{
    if findings.len() > 0 {
        lemma_detection_of_fields(detector, format, findings.drop_last());
    }
}

/// The points of all findings, summed.
pub open spec fn points_total(findings: Seq<(u8, Seq<char>)>) -> nat
    decreases findings.len(),
{
    if findings.len() == 0 {
        0
    } else {
        points_total(findings.drop_last()) + findings.last().0 as nat
    }
}

/// Law: a detection that starts with `none` and takes findings one by one
/// with `add` (see `lemma_detection_push`) keeps its detector and format, has
/// the sum of the points as confidence, capped at 100 and never wrapping
/// around, and lists the findings' evidence in the order it was added.
pub proof fn law_findings_accumulate(detector: Seq<char>, format: SourceFormat, findings: Seq<(u8, Seq<char>)>)
    ensures
        detection_of(detector, format, findings) == (DetectionView {
            detector,
            format,
            confidence: if points_total(findings) >= 100 {
                100u8
            } else {
                points_total(findings) as u8
            },
            evidence: findings.map_values(|f: (u8, Seq<char>)| f.1),
        }),
    decreases findings.len(),
{
    if findings.len() == 0 {
        assert(findings.map_values(|f: (u8, Seq<char>)| f.1) =~= Seq::<Seq<char>>::empty());
    } else {
        let rest = findings.drop_last();
        law_findings_accumulate(detector, format, rest);
        assert(findings.map_values(|f: (u8, Seq<char>)| f.1) =~= rest.map_values(|f: (u8, Seq<char>)| f.1).push(
            findings.last().1,
        ));
    }
}

impl Detection {
    pub open spec fn view(&self) -> DetectionView {
        DetectionView {
            detector: self.detector@,
            format: self.format,
            confidence: self.confidence,
            evidence: strings_view(self.evidence@),
        }
    }

    /// A detection with no evidence and confidence 0.
    pub fn none(detector: &'static str, format: SourceFormat) -> (d: Detection)
        ensures
            d@ == detection_of(detector@, format, Seq::empty()),
            d.detector == detector,
    {
        let d = Detection { detector, format, confidence: 0, evidence: Vec::new() };
        assert(strings_view(d.evidence@) =~= Seq::<Seq<char>>::empty());
        d
    }

    /// Records one piece of evidence worth `points`; confidence saturates at 100.
    pub fn add(&mut self, points: u8, evidence: &str)
        ensures
            final(self)@ == with_finding(old(self)@, points, evidence@),
            final(self).detector == old(self).detector,
    {
        let sum: u16 = self.confidence as u16 + points as u16;
        self.confidence = if sum >= 100 {
            100
        } else {
            sum as u8
        };
        let ghost before = self.evidence@;
        self.evidence.push(evidence.to_owned());
        assert(strings_view(self.evidence@) =~= strings_view(before).push(evidence@));
    }
}

/// `findings` with one more, where `found` holds.
pub open spec fn note(
    findings: Seq<(u8, Seq<char>)>,
    found: bool,
    points: u8,
    evidence: Seq<char>,
) -> Seq<(u8, Seq<char>)> {
    if found {
        findings.push((points, evidence))
    } else {
        findings
    }
}

/// Some file is named `name`, ignoring ASCII case.
pub open spec fn has_file_named(es: Seq<SourceEntry>, name: Seq<char>) -> bool {
    exists|i: int| 0 <= i < es.len() && es[i].is_file && eq_ignore_case(#[trigger] es[i].name@, name)
}

/// Some directory is named `name`, ignoring ASCII case.
pub open spec fn has_dir_named(es: Seq<SourceEntry>, name: Seq<char>) -> bool {
    exists|i: int| 0 <= i < es.len() && es[i].is_dir && eq_ignore_case(#[trigger] es[i].name@, name)
}

/// Some file has extension `ext`, ignoring ASCII case.
pub open spec fn has_file_ext(es: Seq<SourceEntry>, ext: Seq<char>) -> bool {
    exists|i: int| 0 <= i < es.len() && es[i].is_file && has_ext(#[trigger] es[i].name@, ext)
}

/// The first `max` bytes that were read of an entry, decoded and ASCII-lowercased;
/// empty where nothing was read.
pub open spec fn prefix_text(head: Option<Vec<u8>>, max: nat) -> Seq<char> {
    match head {
        Some(bytes) => lower_seq(
            decoded(bytes@.take(if bytes@.len() <= max { bytes@.len() as int } else { max as int })),
        ),
        None => Seq::empty(),
    }
}

/// A `config.txt` whose first 64 KiB mention both `kuid` and `kind`.
pub open spec fn trainz_config_hit(e: SourceEntry) -> bool {
    let text = prefix_text(e.head, CONFIG_PREFIX_BYTES as nat);
    &&& eq_ignore_case(e.name@, "config.txt"@)
    &&& contains(text, "kuid"@)
    &&& contains(text, "kind"@)
}

/// A `.csv` file whose first 256 KiB hold a BVE/OpenBVE route command.
pub open spec fn bve_route_hit(e: SourceEntry) -> bool {
    let text = prefix_text(e.head, ROUTE_PREFIX_BYTES as nat);
    &&& has_ext(e.name@, "csv"@)
    &&& {
        ||| contains(text, "with track"@)
        ||| contains(text, "track.curve"@)
        ||| contains(text, "track.pitch"@)
        ||| contains(text, "track.sta"@)
        ||| contains(text, ".curve "@)
        ||| contains(text, ".pitch "@)
    }
}

/// Which entries need their first bytes read, and how many: `.csv` files for the
/// route check and `config.txt` files for the Trainz check.
pub open spec fn prefix_need(e: SourceEntry) -> Option<usize> {
    if has_ext(e.name@, "csv"@) {
        Some(ROUTE_PREFIX_BYTES)
    } else if eq_ignore_case(e.name@, "config.txt"@) {
        Some(CONFIG_PREFIX_BYTES)
    } else {
        None
    }
}

pub open spec fn msts_findings(es: Seq<SourceEntry>) -> Seq<(u8, Seq<char>)> {
    let f = Seq::empty();
    let f = note(f, has_file_ext(es, "trk"@), 45, "found MSTS .trk route file"@);
    let f = note(f, has_file_ext(es, "tdb"@), 20, "found track database (.tdb)"@);
    let f = note(f, has_file_ext(es, "rdb"@), 10, "found road database (.rdb)"@);
    let f = note(f, has_dir_named(es, "world"@), 12, "found WORLD directory"@);
    let f = note(f, has_dir_named(es, "paths"@), 8, "found PATHS directory"@);
    let f = note(f, has_file_ext(es, "pat"@), 25, "found MSTS path (.pat)"@);
    let f = note(f, has_dir_named(es, "activities"@), 5, "found ACTIVITIES directory"@);
    note(f, has_file_ext(es, "con"@), 8, "found MSTS consist (.con)"@)
}

pub open spec fn trainz_findings(es: Seq<SourceEntry>) -> Seq<(u8, Seq<char>)> {
    let f = Seq::empty();
    let f = note(f, has_file_ext(es, "cdp"@), 55, "found Trainz CDP package"@);
    note(
        f,
        exists|i: int| 0 <= i < es.len() && trainz_config_hit(#[trigger] es[i]),
        75,
        "found Trainz config.txt with KUID and kind fields"@,
    )
}

pub open spec fn bve_findings(es: Seq<SourceEntry>) -> Seq<(u8, Seq<char>)> {
    let f = Seq::empty();
    let f = note(f, has_file_named(es, "train.dat"@), 35, "found train.dat"@);
    let f = note(f, has_file_named(es, "panel.animated"@), 25, "found panel.animated"@);
    let f = note(
        f,
        !has_file_named(es, "panel.animated"@) && has_file_named(es, "panel.cfg"@),
        15,
        "found panel.cfg"@,
    );
    let f = note(f, has_file_named(es, "extensions.cfg"@), 10, "found extensions.cfg"@);
    let f = note(f, has_dir_named(es, "railway"@), 20, "found Railway directory"@);
    let f = note(f, has_dir_named(es, "train"@), 10, "found Train directory"@);
    let f = note(f, has_file_ext(es, "rw"@), 20, "found BVE route (.rw)"@);
    note(
        f,
        exists|i: int| 0 <= i < es.len() && bve_route_hit(#[trigger] es[i]),
        45,
        "found CSV file with BVE/OpenBVE route commands"@,
    )
}

pub open spec fn railworks_findings(es: Seq<SourceEntry>) -> Seq<(u8, Seq<char>)> {
    let f = Seq::empty();
    let f = note(f, has_file_named(es, "routeproperties.xml"@), 65, "found RouteProperties.xml"@);
    let f = note(f, has_file_named(es, "tracks.bin"@), 20, "found Tracks.bin"@);
    let f = note(
        f,
        has_dir_named(es, "routes"@) && has_dir_named(es, "content"@),
        15,
        "found Content/Routes-style directory layout"@,
    );
    note(f, has_dir_named(es, "assets"@), 5, "found Assets directory"@)
}

pub open spec fn loksim_findings(es: Seq<SourceEntry>) -> Seq<(u8, Seq<char>)> {
    let f = Seq::empty();
    let f = note(f, has_file_ext(es, "l3dobj"@), 50, "found Loksim3D object (.l3dobj)"@);
    let f = note(f, has_file_ext(es, "l3dgrp"@), 35, "found Loksim3D object group (.l3dgrp)"@);
    note(f, has_file_ext(es, "l3dpack"@), 60, "found Loksim3D package (.l3dpack)"@)
}

/// A portable file's kind by its ASCII-lowercased name: 0 for RailWeave
/// interchange (`*.railweave.json`), 1 for GeoJSON (`*.geojson`), 2 for
/// RailWeave track CSV (`*.railweave.csv` or `railweave-track.csv`).
pub open spec fn portable_rank(name: Seq<char>) -> Option<nat> {
    let n = lower_seq(name);
    if ends_with(n, ".railweave.json"@) {
        Some(0)
    } else if ends_with(n, ".geojson"@) {
        Some(1)
    } else if ends_with(n, ".railweave.csv"@) || n == "railweave-track.csv"@ {
        Some(2)
    } else {
        None
    }
}

/// The source is a single portable file of kind `rank`: the listing holds that
/// file alone.
pub open spec fn lone_portable(es: Seq<SourceEntry>, rank: nat) -> bool {
    es.len() == 1 && es[0].is_file && portable_rank(es[0].name@) == Some(rank)
}

pub open spec fn interchange_findings(es: Seq<SourceEntry>) -> Seq<(u8, Seq<char>)> {
    note(Seq::empty(), lone_portable(es, 0), 95, "found RailWeave interchange file (.railweave.json)"@)
}

pub open spec fn geojson_findings(es: Seq<SourceEntry>) -> Seq<(u8, Seq<char>)> {
    note(Seq::empty(), lone_portable(es, 1), 95, "found GeoJSON file (.geojson)"@)
}

pub open spec fn track_csv_findings(es: Seq<SourceEntry>) -> Seq<(u8, Seq<char>)> {
    note(Seq::empty(), lone_portable(es, 2), 95, "found RailWeave track CSV file"@)
}

/// The kind of a portable file name (see `portable_rank`).
pub fn portable_rank_of(name: &String) -> (r: Option<u8>)
    ensures
        r matches Some(p) ==> portable_rank(name@) == Some(p as nat),
        r is None ==> portable_rank(name@) is None,
{
    let lower = lowercase(&chars_of(name.as_str()));
    if has_suffix(&lower, &chars_of(".railweave.json")) {
        Some(0)
    } else if has_suffix(&lower, &chars_of(".geojson")) {
        Some(1)
    } else if has_suffix(&lower, &chars_of(".railweave.csv")) || slice_eq(
        &lower,
        &chars_of("railweave-track.csv"),
    ) {
        Some(2)
    } else {
        None
    }
}

fn is_lone_portable(entries: &[SourceEntry], rank: u8) -> (r: bool)
    ensures
        r == lone_portable(entries@, rank as nat),
{
    if entries.len() != 1 || !entries[0].is_file {
        return false;
    }
    match portable_rank_of(&entries[0].name) {
        Some(p) => p == rank,
        None => false,
    }
}

/// Whether some file is named `name`, ignoring ASCII case.
pub fn has_file(entries: &[SourceEntry], name: &str) -> (r: bool)
    ensures
        r == has_file_named(entries@, name@),
{
    let n = chars_of(name);
    let mut i: usize = 0;
    while i < entries.len()
        invariant
            i <= entries@.len(),
            n@ == name@,
            forall|k: int|
                0 <= k < i ==> !(entries@[k].is_file && eq_ignore_case(#[trigger] entries@[k].name@, name@)),
        decreases entries.len() - i,
    {
        if entries[i].is_file {
            let c = chars_of(entries[i].name.as_str());
            if eq_ignore_ascii_case(&c, &n) {
                return true;
            }
        }
        i += 1;
    }
    false
}

/// Whether some directory is named `name`, ignoring ASCII case.
pub fn has_dir(entries: &[SourceEntry], name: &str) -> (r: bool)
    ensures
        r == has_dir_named(entries@, name@),
{
    let n = chars_of(name);
    let mut i: usize = 0;
    while i < entries.len()
        invariant
            i <= entries@.len(),
            n@ == name@,
            forall|k: int|
                0 <= k < i ==> !(entries@[k].is_dir && eq_ignore_case(#[trigger] entries@[k].name@, name@)),
        decreases entries.len() - i,
    {
        if entries[i].is_dir {
            let c = chars_of(entries[i].name.as_str());
            if eq_ignore_ascii_case(&c, &n) {
                return true;
            }
        }
        i += 1;
    }
    false
}

/// Whether some file has extension `ext`, ignoring ASCII case.
pub fn has_extension(entries: &[SourceEntry], ext: &str) -> (r: bool)
    ensures
        r == has_file_ext(entries@, ext@),
{
    let x = chars_of(ext);
    let mut i: usize = 0;
    while i < entries.len()
        invariant
            i <= entries@.len(),
            x@ == ext@,
            forall|k: int|
                0 <= k < i ==> !(entries@[k].is_file && has_ext(#[trigger] entries@[k].name@, ext@)),
        decreases entries.len() - i,
    {
        if entries[i].is_file {
            let c = chars_of(entries[i].name.as_str());
            if name_has_extension(&c, &x) {
                return true;
            }
        }
        i += 1;
    }
    false
}

/// How many leading bytes of `entry` the detectors read, if any.
pub fn prefix_request(entry: &SourceEntry) -> (r: Option<usize>)
    ensures
        r == prefix_need(*entry),
{
    let name = chars_of(entry.name.as_str());
    let csv = chars_of("csv");
    if name_has_extension(&name, &csv) {
        return Some(ROUTE_PREFIX_BYTES);
    }
    let config = chars_of("config.txt");
    if eq_ignore_ascii_case(&name, &config) {
        Some(CONFIG_PREFIX_BYTES)
    } else {
        None
    }
}

/// The first `max` bytes read of an entry, decoded and ASCII-lowercased.
pub fn prefix_chars(head: &Option<Vec<u8>>, max: usize) -> (r: Vec<char>)
    ensures
        r@ == prefix_text(*head, max as nat),
{
    match head {
        Some(bytes) => {
            let n = if bytes.len() <= max {
                bytes.len()
            } else {
                max
            };
            let mut taken: Vec<u8> = Vec::new();
            let mut i: usize = 0;
            while i < n
                invariant
                    n <= bytes@.len(),
                    i <= n,
                    taken@ == bytes@.take(i as int),
                decreases n - i,
            {
                taken.push(bytes[i]);
                assert(bytes@.take(i + 1) =~= bytes@.take(i as int).push(bytes@[i as int]));
                i += 1;
            }
            let text = decode_chars(&taken);
            lowercase(&text)
        },
        None => Vec::new(),
    }
}

fn text_has(text: &[char], needle: &str) -> (r: bool)
    ensures
        r == contains(text@, needle@),
{
    let p = chars_of(needle);
    has_substring(text, &p)
}

fn is_trainz_config(e: &SourceEntry) -> (r: bool)
    ensures
        r == trainz_config_hit(*e),
{
    let name = chars_of(e.name.as_str());
    let config = chars_of("config.txt");
    if !eq_ignore_ascii_case(&name, &config) {
        return false;
    }
    let text = prefix_chars(&e.head, CONFIG_PREFIX_BYTES);
    text_has(&text, "kuid") && text_has(&text, "kind")
}

/// Whether an entry is a `.csv` file that reads as a BVE/OpenBVE route.
pub fn is_bve_route(e: &SourceEntry) -> (r: bool)
    ensures
        r == bve_route_hit(*e),
{
    let name = chars_of(e.name.as_str());
    let csv = chars_of("csv");
    if !name_has_extension(&name, &csv) {
        return false;
    }
    let text = prefix_chars(&e.head, ROUTE_PREFIX_BYTES);
    text_has(&text, "with track") || text_has(&text, "track.curve") || text_has(&text, "track.pitch")
        || text_has(&text, "track.sta") || text_has(&text, ".curve ") || text_has(&text, ".pitch ")
}

fn any_trainz_config(entries: &[SourceEntry]) -> (r: bool)
    ensures
        r == exists|i: int| 0 <= i < entries@.len() && trainz_config_hit(#[trigger] entries@[i]),
{
    let mut i: usize = 0;
    while i < entries.len()
        invariant
            i <= entries@.len(),
            forall|k: int| 0 <= k < i ==> !trainz_config_hit(#[trigger] entries@[k]),
        decreases entries.len() - i,
    {
        if is_trainz_config(&entries[i]) {
            return true;
        }
        i += 1;
    }
    false
}

fn any_bve_route(entries: &[SourceEntry]) -> (r: bool)
    ensures
        r == exists|i: int| 0 <= i < entries@.len() && bve_route_hit(#[trigger] entries@[i]),
{
    let mut i: usize = 0;
    while i < entries.len()
        invariant
            i <= entries@.len(),
            forall|k: int| 0 <= k < i ==> !bve_route_hit(#[trigger] entries@[k]),
        decreases entries.len() - i,
    {
        if is_bve_route(&entries[i]) {
            return true;
        }
        i += 1;
    }
    false
}

/// Adds a finding to `d` where `found` holds.
fn record(
    d: &mut Detection,
    found: bool,
    points: u8,
    evidence: &str,
    Ghost(id): Ghost<Seq<char>>,
    Ghost(format): Ghost<SourceFormat>,
    Ghost(findings): Ghost<Seq<(u8, Seq<char>)>>,
)
    requires
        old(d)@ == detection_of(id, format, findings),
    ensures
        final(d)@ == detection_of(id, format, note(findings, found, points, evidence@)),
        final(d).detector == old(d).detector,
{
    if found {
        d.add(points, evidence);
        proof {
            lemma_detection_push(id, format, findings, points, evidence@);
        }
    }
}

/// A recogniser for one simulator's content.
pub trait SourceDetector {
    fn id(&self) -> &'static str;

    fn format(&self) -> SourceFormat;

    fn detect(&self, entries: &[SourceEntry]) -> Detection;
}

/// Microsoft Train Simulator / Open Rails routes.
#[derive(Debug)]
pub struct MstsDetector;

/// Trainz assets and packages.
#[derive(Debug)]
pub struct TrainzDetector;

/// BVE / OpenBVE routes and trains.
#[derive(Debug)]
pub struct BveDetector;

/// Train Simulator (RailWorks) routes.
#[derive(Debug)]
pub struct RailWorksDetector;

/// Loksim3D objects and packages.
#[derive(Debug)]
pub struct LoksimDetector;

/// A RailWeave interchange (`.railweave.json`) file given as the source.
#[derive(Debug)]
pub struct InterchangeDetector;

/// A GeoJSON file given as the source.
#[derive(Debug)]
pub struct GeoJsonDetector;

/// A RailWeave track CSV file given as the source.
#[derive(Debug)]
pub struct TrackCsvDetector;

impl SourceDetector for MstsDetector {
    fn id(&self) -> (s: &'static str)
        ensures
            s@ == "msts-openrails"@,
    {
        "msts-openrails"
    }

    fn format(&self) -> (f: SourceFormat)
        ensures
            f == SourceFormat::MstsOpenRails,
    {
        SourceFormat::MstsOpenRails
    }

    fn detect(&self, entries: &[SourceEntry]) -> (d: Detection)
        ensures
            d@ == detection_of("msts-openrails"@, SourceFormat::MstsOpenRails, msts_findings(entries@)),
    {
        let ghost id = "msts-openrails"@;
        let ghost fmt = SourceFormat::MstsOpenRails;
        let mut d = Detection::none(self.id(), self.format());
        let ghost f = Seq::empty();
        let found = has_extension(entries, "trk");
        record(&mut d, found, 45, "found MSTS .trk route file", Ghost(id), Ghost(fmt), Ghost(f));
        let ghost f = note(f, found, 45, "found MSTS .trk route file"@);
        let found = has_extension(entries, "tdb");
        record(&mut d, found, 20, "found track database (.tdb)", Ghost(id), Ghost(fmt), Ghost(f));
        let ghost f = note(f, found, 20, "found track database (.tdb)"@);
        let found = has_extension(entries, "rdb");
        record(&mut d, found, 10, "found road database (.rdb)", Ghost(id), Ghost(fmt), Ghost(f));
        let ghost f = note(f, found, 10, "found road database (.rdb)"@);
        let found = has_dir(entries, "world");
        record(&mut d, found, 12, "found WORLD directory", Ghost(id), Ghost(fmt), Ghost(f));
        let ghost f = note(f, found, 12, "found WORLD directory"@);
        let found = has_dir(entries, "paths");
        record(&mut d, found, 8, "found PATHS directory", Ghost(id), Ghost(fmt), Ghost(f));
        let ghost f = note(f, found, 8, "found PATHS directory"@);
        let found = has_extension(entries, "pat");
        record(&mut d, found, 25, "found MSTS path (.pat)", Ghost(id), Ghost(fmt), Ghost(f));
        let ghost f = note(f, found, 25, "found MSTS path (.pat)"@);
        let found = has_dir(entries, "activities");
        record(&mut d, found, 5, "found ACTIVITIES directory", Ghost(id), Ghost(fmt), Ghost(f));
        let ghost f = note(f, found, 5, "found ACTIVITIES directory"@);
        let found = has_extension(entries, "con");
        record(&mut d, found, 8, "found MSTS consist (.con)", Ghost(id), Ghost(fmt), Ghost(f));
        d
    }
}

impl SourceDetector for TrainzDetector {
    fn id(&self) -> (s: &'static str)
        ensures
            s@ == "trainz"@,
    {
        "trainz"
    }

    fn format(&self) -> (f: SourceFormat)
        ensures
            f == SourceFormat::Trainz,
    {
        SourceFormat::Trainz
    }

    fn detect(&self, entries: &[SourceEntry]) -> (d: Detection)
        ensures
            d@ == detection_of("trainz"@, SourceFormat::Trainz, trainz_findings(entries@)),
    {
        let ghost id = "trainz"@;
        let ghost fmt = SourceFormat::Trainz;
        let mut d = Detection::none(self.id(), self.format());
        let ghost f = Seq::empty();
        let found = has_extension(entries, "cdp");
        record(&mut d, found, 55, "found Trainz CDP package", Ghost(id), Ghost(fmt), Ghost(f));
        let ghost f = note(f, found, 55, "found Trainz CDP package"@);
        let found = any_trainz_config(entries);
        record(
            &mut d,
            found,
            75,
            "found Trainz config.txt with KUID and kind fields",
            Ghost(id),
            Ghost(fmt),
            Ghost(f),
        );
        d
    }
}

impl SourceDetector for BveDetector {
    fn id(&self) -> (s: &'static str)
        ensures
            s@ == "bve-openbve"@,
    {
        "bve-openbve"
    }

    fn format(&self) -> (f: SourceFormat)
        ensures
            f == SourceFormat::BveOpenBve,
    {
        SourceFormat::BveOpenBve
    }

    fn detect(&self, entries: &[SourceEntry]) -> (d: Detection)
        ensures
            d@ == detection_of("bve-openbve"@, SourceFormat::BveOpenBve, bve_findings(entries@)),
    {
        let ghost id = "bve-openbve"@;
        let ghost fmt = SourceFormat::BveOpenBve;
        let mut d = Detection::none(self.id(), self.format());
        let ghost f = Seq::empty();
        let found = has_file(entries, "train.dat");
        record(&mut d, found, 35, "found train.dat", Ghost(id), Ghost(fmt), Ghost(f));
        let ghost f = note(f, found, 35, "found train.dat"@);
        let animated = has_file(entries, "panel.animated");
        record(&mut d, animated, 25, "found panel.animated", Ghost(id), Ghost(fmt), Ghost(f));
        let ghost f = note(f, animated, 25, "found panel.animated"@);
        let found = !animated && has_file(entries, "panel.cfg");
        record(&mut d, found, 15, "found panel.cfg", Ghost(id), Ghost(fmt), Ghost(f));
        let ghost f = note(f, found, 15, "found panel.cfg"@);
        let found = has_file(entries, "extensions.cfg");
        record(&mut d, found, 10, "found extensions.cfg", Ghost(id), Ghost(fmt), Ghost(f));
        let ghost f = note(f, found, 10, "found extensions.cfg"@);
        let found = has_dir(entries, "railway");
        record(&mut d, found, 20, "found Railway directory", Ghost(id), Ghost(fmt), Ghost(f));
        let ghost f = note(f, found, 20, "found Railway directory"@);
        let found = has_dir(entries, "train");
        record(&mut d, found, 10, "found Train directory", Ghost(id), Ghost(fmt), Ghost(f));
        let ghost f = note(f, found, 10, "found Train directory"@);
        let found = has_extension(entries, "rw");
        record(&mut d, found, 20, "found BVE route (.rw)", Ghost(id), Ghost(fmt), Ghost(f));
        let ghost f = note(f, found, 20, "found BVE route (.rw)"@);
        let found = any_bve_route(entries);
        record(
            &mut d,
            found,
            45,
            "found CSV file with BVE/OpenBVE route commands",
            Ghost(id),
            Ghost(fmt),
            Ghost(f),
        );
        d
    }
}

impl SourceDetector for RailWorksDetector {
    fn id(&self) -> (s: &'static str)
        ensures
            s@ == "railworks"@,
    {
        "railworks"
    }

    fn format(&self) -> (f: SourceFormat)
        ensures
            f == SourceFormat::RailWorks,
    {
        SourceFormat::RailWorks
    }

    fn detect(&self, entries: &[SourceEntry]) -> (d: Detection)
        ensures
            d@ == detection_of("railworks"@, SourceFormat::RailWorks, railworks_findings(entries@)),
    {
        let ghost id = "railworks"@;
        let ghost fmt = SourceFormat::RailWorks;
        let mut d = Detection::none(self.id(), self.format());
        let ghost f = Seq::empty();
        let found = has_file(entries, "routeproperties.xml");
        record(&mut d, found, 65, "found RouteProperties.xml", Ghost(id), Ghost(fmt), Ghost(f));
        let ghost f = note(f, found, 65, "found RouteProperties.xml"@);
        let found = has_file(entries, "tracks.bin");
        record(&mut d, found, 20, "found Tracks.bin", Ghost(id), Ghost(fmt), Ghost(f));
        let ghost f = note(f, found, 20, "found Tracks.bin"@);
        let found = has_dir(entries, "routes") && has_dir(entries, "content");
        record(
            &mut d,
            found,
            15,
            "found Content/Routes-style directory layout",
            Ghost(id),
            Ghost(fmt),
            Ghost(f),
        );
        let ghost f = note(f, found, 15, "found Content/Routes-style directory layout"@);
        let found = has_dir(entries, "assets");
        record(&mut d, found, 5, "found Assets directory", Ghost(id), Ghost(fmt), Ghost(f));
        d
    }
}

impl SourceDetector for LoksimDetector {
    fn id(&self) -> (s: &'static str)
        ensures
            s@ == "loksim3d"@,
    {
        "loksim3d"
    }

    fn format(&self) -> (f: SourceFormat)
        ensures
            f == SourceFormat::Loksim3D,
    {
        SourceFormat::Loksim3D
    }

    fn detect(&self, entries: &[SourceEntry]) -> (d: Detection)
        ensures
            d@ == detection_of("loksim3d"@, SourceFormat::Loksim3D, loksim_findings(entries@)),
    {
        let ghost id = "loksim3d"@;
        let ghost fmt = SourceFormat::Loksim3D;
        let mut d = Detection::none(self.id(), self.format());
        let ghost f = Seq::empty();
        let found = has_extension(entries, "l3dobj");
        record(&mut d, found, 50, "found Loksim3D object (.l3dobj)", Ghost(id), Ghost(fmt), Ghost(f));
        let ghost f = note(f, found, 50, "found Loksim3D object (.l3dobj)"@);
        let found = has_extension(entries, "l3dgrp");
        record(
            &mut d,
            found,
            35,
            "found Loksim3D object group (.l3dgrp)",
            Ghost(id),
            Ghost(fmt),
            Ghost(f),
        );
        let ghost f = note(f, found, 35, "found Loksim3D object group (.l3dgrp)"@);
        let found = has_extension(entries, "l3dpack");
        record(
            &mut d,
            found,
            60,
            "found Loksim3D package (.l3dpack)",
            Ghost(id),
            Ghost(fmt),
            Ghost(f),
        );
        d
    }
}

impl SourceDetector for InterchangeDetector {
    fn id(&self) -> (s: &'static str)
        ensures
            s@ == "railweave-json"@,
    {
        "railweave-json"
    }

    fn format(&self) -> (f: SourceFormat)
        ensures
            f == SourceFormat::RailWeave,
    {
        SourceFormat::RailWeave
    }

    fn detect(&self, entries: &[SourceEntry]) -> (d: Detection)
        ensures
            d@ == detection_of("railweave-json"@, SourceFormat::RailWeave, interchange_findings(entries@)),
    {
        let mut d = Detection::none(self.id(), self.format());
        let found = is_lone_portable(entries, 0);
        record(&mut d, found, 95, "found RailWeave interchange file (.railweave.json)", Ghost("railweave-json"@), Ghost(SourceFormat::RailWeave), Ghost(Seq::empty()));
        d
    }
}

impl SourceDetector for GeoJsonDetector {
    fn id(&self) -> (s: &'static str)
        ensures
            s@ == "geojson"@,
    {
        "geojson"
    }

    fn format(&self) -> (f: SourceFormat)
        ensures
            f == SourceFormat::GeoJson,
    {
        SourceFormat::GeoJson
    }

    fn detect(&self, entries: &[SourceEntry]) -> (d: Detection)
        ensures
            d@ == detection_of("geojson"@, SourceFormat::GeoJson, geojson_findings(entries@)),
    {
        let mut d = Detection::none(self.id(), self.format());
        let found = is_lone_portable(entries, 1);
        record(&mut d, found, 95, "found GeoJSON file (.geojson)", Ghost("geojson"@), Ghost(SourceFormat::GeoJson), Ghost(Seq::empty()));
        d
    }
}

impl SourceDetector for TrackCsvDetector {
    fn id(&self) -> (s: &'static str)
        ensures
            s@ == "railweave-track-csv"@,
    {
        "railweave-track-csv"
    }

    fn format(&self) -> (f: SourceFormat)
        ensures
            f == SourceFormat::TrackCsv,
    {
        SourceFormat::TrackCsv
    }

    fn detect(&self, entries: &[SourceEntry]) -> (d: Detection)
        ensures
            d@ == detection_of("railweave-track-csv"@, SourceFormat::TrackCsv, track_csv_findings(entries@)),
    {
        let mut d = Detection::none(self.id(), self.format());
        let found = is_lone_portable(entries, 2);
        record(&mut d, found, 95, "found RailWeave track CSV file", Ghost("railweave-track-csv"@), Ghost(SourceFormat::TrackCsv), Ghost(Seq::empty()));
        d
    }
}

/// The built-in detectors, one value per detector.
#[derive(Clone, Copy, PartialEq, Eq, Structural, Debug)]
pub enum BuiltInDetector {
    Msts,
    Trainz,
    Bve,
    RailWorks,
    Loksim,
    Interchange,
    GeoJson,
    TrackCsv,
}

/// What a built-in detector concludes about `es`.
pub open spec fn builtin_detection(b: BuiltInDetector, es: Seq<SourceEntry>) -> DetectionView {
    match b {
        BuiltInDetector::Msts => detection_of(
            "msts-openrails"@,
            SourceFormat::MstsOpenRails,
            msts_findings(es),
        ),
        BuiltInDetector::Trainz => detection_of("trainz"@, SourceFormat::Trainz, trainz_findings(es)),
        BuiltInDetector::Bve => detection_of("bve-openbve"@, SourceFormat::BveOpenBve, bve_findings(es)),
        BuiltInDetector::RailWorks => detection_of(
            "railworks"@,
            SourceFormat::RailWorks,
            railworks_findings(es),
        ),
        BuiltInDetector::Loksim => detection_of(
            "loksim3d"@,
            SourceFormat::Loksim3D,
            loksim_findings(es),
        ),
        BuiltInDetector::Interchange => detection_of(
            "railweave-json"@,
            SourceFormat::RailWeave,
            interchange_findings(es),
        ),
        BuiltInDetector::GeoJson => detection_of("geojson"@, SourceFormat::GeoJson, geojson_findings(es)),
        BuiltInDetector::TrackCsv => detection_of(
            "railweave-track-csv"@,
            SourceFormat::TrackCsv,
            track_csv_findings(es),
        ),
    }
}

impl SourceDetector for BuiltInDetector {
    fn id(&self) -> (s: &'static str)
        ensures
            s@ == builtin_detection(*self, Seq::empty()).detector,
    {
        match self {
            BuiltInDetector::Msts => MstsDetector.id(),
            BuiltInDetector::Trainz => TrainzDetector.id(),
            BuiltInDetector::Bve => BveDetector.id(),
            BuiltInDetector::RailWorks => RailWorksDetector.id(),
            BuiltInDetector::Loksim => LoksimDetector.id(),
            BuiltInDetector::Interchange => InterchangeDetector.id(),
            BuiltInDetector::GeoJson => GeoJsonDetector.id(),
            BuiltInDetector::TrackCsv => TrackCsvDetector.id(),
        }
    }

    fn format(&self) -> (f: SourceFormat)
        ensures
            f == builtin_detection(*self, Seq::empty()).format,
    {
        match self {
            BuiltInDetector::Msts => MstsDetector.format(),
            BuiltInDetector::Trainz => TrainzDetector.format(),
            BuiltInDetector::Bve => BveDetector.format(),
            BuiltInDetector::RailWorks => RailWorksDetector.format(),
            BuiltInDetector::Loksim => LoksimDetector.format(),
            BuiltInDetector::Interchange => InterchangeDetector.format(),
            BuiltInDetector::GeoJson => GeoJsonDetector.format(),
            BuiltInDetector::TrackCsv => TrackCsvDetector.format(),
        }
    }

    fn detect(&self, entries: &[SourceEntry]) -> (d: Detection)
        ensures
            d@ == builtin_detection(*self, entries@),
    {
        match self {
            BuiltInDetector::Msts => MstsDetector.detect(entries),
            BuiltInDetector::Trainz => TrainzDetector.detect(entries),
            BuiltInDetector::Bve => BveDetector.detect(entries),
            BuiltInDetector::RailWorks => RailWorksDetector.detect(entries),
            BuiltInDetector::Loksim => LoksimDetector.detect(entries),
            BuiltInDetector::Interchange => InterchangeDetector.detect(entries),
            BuiltInDetector::GeoJson => GeoJsonDetector.detect(entries),
            BuiltInDetector::TrackCsv => TrackCsvDetector.detect(entries),
        }
    }
}

/// The built-in detectors in the order in which they run.
pub open spec fn builtin_order() -> Seq<BuiltInDetector> {
    seq![
        BuiltInDetector::Msts,
        BuiltInDetector::Trainz,
        BuiltInDetector::Bve,
        BuiltInDetector::RailWorks,
        BuiltInDetector::Loksim,
        BuiltInDetector::Interchange,
        BuiltInDetector::GeoJson,
        BuiltInDetector::TrackCsv,
    ]
}

pub fn built_in_detectors() -> (r: Vec<BuiltInDetector>)
    ensures
        r@ == builtin_order(),
{
    let r = vec![
        BuiltInDetector::Msts,
        BuiltInDetector::Trainz,
        BuiltInDetector::Bve,
        BuiltInDetector::RailWorks,
        BuiltInDetector::Loksim,
        BuiltInDetector::Interchange,
        BuiltInDetector::GeoJson,
        BuiltInDetector::TrackCsv,
    ];
    assert(r@ =~= builtin_order());
    r
}

/// The detections that found something, in their order.
pub open spec fn confident(s: Seq<DetectionView>) -> Seq<DetectionView>
    decreases s.len(),
{
    if s.len() == 0 {
        s
    } else if s.last().confidence > 0 {
        confident(s.drop_last()).push(s.last())
    } else {
        confident(s.drop_last())
    }
}

/// `a` ranks strictly before `b`.
pub open spec fn more_confident() -> spec_fn(DetectionView, DetectionView) -> bool {
    |a: DetectionView, b: DetectionView| a.confidence > b.confidence
}

/// Detections by falling confidence; ties keep their order.
pub open spec fn ranked(s: Seq<DetectionView>) -> Seq<DetectionView> {
    sort_stable(s, more_confident())
}

/// What every built-in detector concludes, in the order in which they run.
pub open spec fn all_detections(es: Seq<SourceEntry>) -> Seq<DetectionView> {
    builtin_order().map_values(|b: BuiltInDetector| builtin_detection(b, es))
}

/// The result of `detect_all`.
pub open spec fn detections_of(es: Seq<SourceEntry>) -> Seq<DetectionView> {
    ranked(confident(all_detections(es)))
}

pub open spec fn detection_views(v: Seq<Detection>) -> Seq<DetectionView> {
    v.map_values(|d: Detection| d@)
}

/// Runs every built-in detector and keeps those with positive confidence, the
/// most confident first; detectors with equal confidence keep their order.
pub fn detect_all(entries: &[SourceEntry]) -> (r: Vec<Detection>)
    ensures
        detection_views(r@) == detections_of(entries@),
{
    let detectors = built_in_detectors();
    let ghost all = all_detections(entries@);
    let ghost mc = more_confident();
    let mut out: Vec<Detection> = Vec::new();
    let mut k: usize = 0;
    assert(all.take(0) =~= Seq::<DetectionView>::empty());
    assert(detection_views(out@) =~= ranked(confident(all.take(0))));
    while k < detectors.len()
        invariant
            detectors@ == builtin_order(),
            all == all_detections(entries@),
            mc == more_confident(),
            k <= detectors@.len(),
            detection_views(out@) == ranked(confident(all.take(k as int))),
        decreases detectors.len() - k,
    {
        let d = detectors[k].detect(entries);
        assert(d@ == all[k as int]);
        assert(all.take(k + 1).drop_last() =~= all.take(k as int));
        if d.confidence > 0 {
            let ghost views = detection_views(out@);
            let mut p = out.len();
            assert(views.take(p as int) =~= views);
            while p > 0 && d.confidence > out[p - 1].confidence
                invariant
                    p <= out@.len(),
                    views == detection_views(out@),
                    mc == more_confident(),
                    insert_pos(views.take(p as int), d@, mc) == insert_pos(views, d@, mc),
                decreases p,
            {
                proof {
                    lemma_insert_pos_step(views, d@, mc, p as int);
                }
                p -= 1;
            }
            proof {
                if p > 0 {
                    lemma_insert_pos_step(views, d@, mc, p as int);
                }
            }
            let ghost before_insert = out@;
            out.insert(p, d);
            assert(confident(all.take(k + 1)) == confident(all.take(k as int)).push(d@));
            assert(confident(all.take(k as int)).push(d@).drop_last() =~= confident(
                all.take(k as int),
            ));
            assert(detection_views(out@) =~= views.insert(p as int, d@));
        } else {
            assert(confident(all.take(k + 1)) == confident(all.take(k as int)));
        }
        k += 1;
    }
    assert(all.take(8) =~= all);
    out
}

proof fn lemma_confident_filter(s: Seq<DetectionView>)
    ensures
        confident(s) == s.filter(|d: DetectionView| d.confidence > 0),
    decreases s.len(),
{
    if s.len() > 0 {
        lemma_confident_filter(s.drop_last());
        s.drop_last().lemma_filter_push(s.last(), |d: DetectionView| d.confidence > 0);
        assert(s.drop_last().push(s.last()) =~= s);
    }
}

proof fn lemma_confident_class(s: Seq<DetectionView>, c: u8)
    requires
        c > 0,
    ensures
        confident(s).filter(|d: DetectionView| d.confidence == c) == s.filter(
            |d: DetectionView| d.confidence == c,
        ),
    decreases s.len(),
{
    if s.len() > 0 {
        let same = |d: DetectionView| d.confidence == c;
        lemma_confident_class(s.drop_last(), c);
        s.drop_last().lemma_filter_push(s.last(), same);
        confident(s.drop_last()).lemma_filter_push(s.last(), same);
        assert(s.drop_last().push(s.last()) =~= s);
    }
}

proof fn lemma_more_confident_order()
    ensures
        strict_order(more_confident()),
{
}

/// The result runs from the most confident detection to the least confident.
pub proof fn law_detections_ranked(es: Seq<SourceEntry>)
    ensures
        forall|i: int, j: int|
            0 <= i < j < detections_of(es).len() ==> #[trigger] detections_of(es)[i].confidence
                >= #[trigger] detections_of(es)[j].confidence,
{
    lemma_more_confident_order();
    lemma_sort_stable(confident(all_detections(es)), more_confident());
    let r = detections_of(es);
    assert forall|i: int, j: int| 0 <= i < j < r.len() implies #[trigger] r[i].confidence
        >= #[trigger] r[j].confidence by {
        assert(!more_confident()(r[j], r[i]));
    }
}

/// The result holds exactly the detections with positive confidence, each once.
pub proof fn law_detections_are_the_confident_ones(es: Seq<SourceEntry>)
    ensures
        detections_of(es).to_multiset() == all_detections(es).filter(
            |d: DetectionView| d.confidence > 0,
        ).to_multiset(),
{
    lemma_more_confident_order();
    lemma_sort_stable(confident(all_detections(es)), more_confident());
    lemma_confident_filter(all_detections(es));
}

/// Detections of equal confidence keep the order in which their detectors run.
pub proof fn law_detection_ties_keep_detector_order(es: Seq<SourceEntry>, c: u8)
    requires
        c > 0,
    ensures
        detections_of(es).filter(|d: DetectionView| d.confidence == c) == all_detections(es).filter(
            |d: DetectionView| d.confidence == c,
        ),
{
    let same = |d: DetectionView| d.confidence == c;
    assert forall|a: DetectionView, b: DetectionView| same(a) && same(b) implies !(
    #[trigger] more_confident()(a, b)) by {}
    crate::order::lemma_sort_stable_class(confident(all_detections(es)), more_confident(), same);
    lemma_confident_class(all_detections(es), c);
}

/// However many findings a detection collects, its confidence stays within 100.
pub proof fn law_confidence_at_most_100(
    detector: Seq<char>,
    format: SourceFormat,
    findings: Seq<(u8, Seq<char>)>,
)
    ensures
        detection_of(detector, format, findings).confidence <= 100,
    decreases findings.len(),
{
    if findings.len() > 0 {
        law_confidence_at_most_100(detector, format, findings.drop_last());
    }
}

/// A detection shows a finding: it lists the evidence and has at least the points.
pub open spec fn shows(d: DetectionView, points: u8, evidence: Seq<char>) -> bool {
    d.evidence.contains(evidence) && d.confidence >= points
}

/// A finding that is noted is shown, and what was shown before stays shown.
proof fn lemma_note_shows(
    detector: Seq<char>,
    format: SourceFormat,
    f: Seq<(u8, Seq<char>)>,
    found: bool,
    p: u8,
    e: Seq<char>,
)
    requires
        p <= 100,
    ensures
        found ==> shows(detection_of(detector, format, note(f, found, p, e)), p, e),
        forall|q: u8, x: Seq<char>|
            shows(detection_of(detector, format, f), q, x) ==> #[trigger] shows(
                detection_of(detector, format, note(f, found, p, e)),
                q,
                x,
            ),
        !found ==> note(f, found, p, e) == f,
{
    if found {
        lemma_detection_push(detector, format, f, p, e);
        let d0 = detection_of(detector, format, f);
        let d1 = with_finding(d0, p, e);
        assert(d1.evidence[d0.evidence.len() as int] == e);
        assert forall|q: u8, x: Seq<char>| shows(d0, q, x) implies #[trigger] shows(d1, q, x) by {
            let w = choose|w: int| 0 <= w < d0.evidence.len() && d0.evidence[w] == x;
            assert(d1.evidence[w] == x);
        }
    }
}

/// A detector's detection that found anything is among the detections reported.
pub proof fn law_confident_detections_are_reported(es: Seq<SourceEntry>, b: BuiltInDetector)
    ensures
        builtin_detection(b, es).confidence > 0 ==> detections_of(es).contains(builtin_detection(b, es)),
{
    let all = all_detections(es);
    let d = builtin_detection(b, es);
    if d.confidence > 0 {
        let k: int = match b {
            BuiltInDetector::Msts => 0,
            BuiltInDetector::Trainz => 1,
            BuiltInDetector::Bve => 2,
            BuiltInDetector::RailWorks => 3,
            BuiltInDetector::Loksim => 4,
            BuiltInDetector::Interchange => 5,
            BuiltInDetector::GeoJson => 6,
            BuiltInDetector::TrackCsv => 7,
        };
        assert(all[k] == d);
        let pos = |x: DetectionView| x.confidence > 0;
        let f = all.filter(pos);
        all.filter_lemma(pos);
        assert(f.contains(d));
        law_detections_are_the_confident_ones(es);
        f.to_multiset_ensures();
        detections_of(es).to_multiset_ensures();
        assert(f.to_multiset().count(d) > 0);
        assert(detections_of(es).to_multiset().count(d) > 0);
    }
}

/// Law: the MSTS/Open Rails detector reports each of its findings, with at
/// least its points, exactly where the listing holds that content: `.trk`
/// (45), `.tdb` (20), `.rdb` (10), a WORLD directory (12), a PATHS directory
/// (8), `.pat` (25), an ACTIVITIES directory (5), `.con` (8); with none of
/// them it reports nothing.
pub proof fn law_msts_findings(es: Seq<SourceEntry>)
    ensures
        ({
            let d = builtin_detection(BuiltInDetector::Msts, es);
            &&& d.detector == "msts-openrails"@ && d.format == SourceFormat::MstsOpenRails
            &&& (exists|i: int| 0 <= i < es.len() && es[i].is_file && has_ext(#[trigger] es[i].name@, "trk"@)) ==> shows(d, 45, "found MSTS .trk route file"@)
            &&& (exists|i: int| 0 <= i < es.len() && es[i].is_file && has_ext(#[trigger] es[i].name@, "tdb"@)) ==> shows(d, 20, "found track database (.tdb)"@)
            &&& (exists|i: int| 0 <= i < es.len() && es[i].is_file && has_ext(#[trigger] es[i].name@, "rdb"@)) ==> shows(d, 10, "found road database (.rdb)"@)
            &&& (exists|i: int| 0 <= i < es.len() && es[i].is_dir && eq_ignore_case(#[trigger] es[i].name@, "world"@)) ==> shows(d, 12, "found WORLD directory"@)
            &&& (exists|i: int| 0 <= i < es.len() && es[i].is_dir && eq_ignore_case(#[trigger] es[i].name@, "paths"@)) ==> shows(d, 8, "found PATHS directory"@)
            &&& (exists|i: int| 0 <= i < es.len() && es[i].is_file && has_ext(#[trigger] es[i].name@, "pat"@)) ==> shows(d, 25, "found MSTS path (.pat)"@)
            &&& (exists|i: int| 0 <= i < es.len() && es[i].is_dir && eq_ignore_case(#[trigger] es[i].name@, "activities"@)) ==> shows(d, 5, "found ACTIVITIES directory"@)
            &&& (exists|i: int| 0 <= i < es.len() && es[i].is_file && has_ext(#[trigger] es[i].name@, "con"@)) ==> shows(d, 8, "found MSTS consist (.con)"@)
            &&& (!(exists|i: int| 0 <= i < es.len() && es[i].is_file && has_ext(#[trigger] es[i].name@, "trk"@)) && !(exists|i: int| 0 <= i < es.len() && es[i].is_file && has_ext(#[trigger] es[i].name@, "tdb"@)) && !(exists|i: int| 0 <= i < es.len() && es[i].is_file && has_ext(#[trigger] es[i].name@, "rdb"@)) && !(exists|i: int| 0 <= i < es.len() && es[i].is_dir && eq_ignore_case(#[trigger] es[i].name@, "world"@)) && !(exists|i: int| 0 <= i < es.len() && es[i].is_dir && eq_ignore_case(#[trigger] es[i].name@, "paths"@)) && !(exists|i: int| 0 <= i < es.len() && es[i].is_file && has_ext(#[trigger] es[i].name@, "pat"@)) && !(exists|i: int| 0 <= i < es.len() && es[i].is_dir && eq_ignore_case(#[trigger] es[i].name@, "activities"@)) && !(exists|i: int| 0 <= i < es.len() && es[i].is_file && has_ext(#[trigger] es[i].name@, "con"@))) ==> d.confidence == 0 && d.evidence.len() == 0
        }),
{
    let f0 = Seq::<(u8, Seq<char>)>::empty();
    let c0 = has_file_ext(es, "trk"@);
    lemma_note_shows("msts-openrails"@, SourceFormat::MstsOpenRails, f0, c0, 45, "found MSTS .trk route file"@);
    let f1 = note(f0, c0, 45, "found MSTS .trk route file"@);
    let c1 = has_file_ext(es, "tdb"@);
    lemma_note_shows("msts-openrails"@, SourceFormat::MstsOpenRails, f1, c1, 20, "found track database (.tdb)"@);
    let f2 = note(f1, c1, 20, "found track database (.tdb)"@);
    let c2 = has_file_ext(es, "rdb"@);
    lemma_note_shows("msts-openrails"@, SourceFormat::MstsOpenRails, f2, c2, 10, "found road database (.rdb)"@);
    let f3 = note(f2, c2, 10, "found road database (.rdb)"@);
    let c3 = has_dir_named(es, "world"@);
    lemma_note_shows("msts-openrails"@, SourceFormat::MstsOpenRails, f3, c3, 12, "found WORLD directory"@);
    let f4 = note(f3, c3, 12, "found WORLD directory"@);
    let c4 = has_dir_named(es, "paths"@);
    lemma_note_shows("msts-openrails"@, SourceFormat::MstsOpenRails, f4, c4, 8, "found PATHS directory"@);
    let f5 = note(f4, c4, 8, "found PATHS directory"@);
    let c5 = has_file_ext(es, "pat"@);
    lemma_note_shows("msts-openrails"@, SourceFormat::MstsOpenRails, f5, c5, 25, "found MSTS path (.pat)"@);
    let f6 = note(f5, c5, 25, "found MSTS path (.pat)"@);
    let c6 = has_dir_named(es, "activities"@);
    lemma_note_shows("msts-openrails"@, SourceFormat::MstsOpenRails, f6, c6, 5, "found ACTIVITIES directory"@);
    let f7 = note(f6, c6, 5, "found ACTIVITIES directory"@);
    let c7 = has_file_ext(es, "con"@);
    lemma_note_shows("msts-openrails"@, SourceFormat::MstsOpenRails, f7, c7, 8, "found MSTS consist (.con)"@);
    let f8 = note(f7, c7, 8, "found MSTS consist (.con)"@);
    assert(f8 == msts_findings(es));
    lemma_detection_of_fields("msts-openrails"@, SourceFormat::MstsOpenRails, f8);
}

/// Law: the Trainz detector finds a CDP package (55 points) wherever the
/// listing holds a `.cdp` file, and a Trainz config (75 points) wherever it
/// holds a `config.txt` whose first 64 KiB mention `kuid` and `kind`; with
/// neither it reports nothing.
pub proof fn law_trainz_findings(es: Seq<SourceEntry>)
    ensures
        ({
            let d = builtin_detection(BuiltInDetector::Trainz, es);
            &&& d.detector == "trainz"@ && d.format == SourceFormat::Trainz
            &&& (exists|i: int| 0 <= i < es.len() && es[i].is_file && has_ext(#[trigger] es[i].name@, "cdp"@)) ==> shows(d, 55, "found Trainz CDP package"@)
            &&& (exists|i: int| 0 <= i < es.len() && trainz_config_hit(#[trigger] es[i])) ==> shows(d, 75, "found Trainz config.txt with KUID and kind fields"@)
            &&& (!(exists|i: int| 0 <= i < es.len() && es[i].is_file && has_ext(#[trigger] es[i].name@, "cdp"@)) && !(exists|i: int| 0 <= i < es.len() && trainz_config_hit(#[trigger] es[i]))) ==> d.confidence == 0 && d.evidence.len() == 0
        }),
{
    let f0 = Seq::<(u8, Seq<char>)>::empty();
    let c0 = has_file_ext(es, "cdp"@);
    lemma_note_shows("trainz"@, SourceFormat::Trainz, f0, c0, 55, "found Trainz CDP package"@);
    let f1 = note(f0, c0, 55, "found Trainz CDP package"@);
    let c1 = exists|i: int| 0 <= i < es.len() && trainz_config_hit(#[trigger] es[i]);
    lemma_note_shows("trainz"@, SourceFormat::Trainz, f1, c1, 75, "found Trainz config.txt with KUID and kind fields"@);
    let f2 = note(f1, c1, 75, "found Trainz config.txt with KUID and kind fields"@);
    assert(f2 == trainz_findings(es));
    lemma_detection_of_fields("trainz"@, SourceFormat::Trainz, f2);
}

/// Law: the BVE/OpenBVE detector reports each of its findings, with at least
/// its points, exactly where the listing holds that content: `train.dat` (35),
/// `panel.animated` (25), `panel.cfg` without `panel.animated` (15),
/// `extensions.cfg` (10), a Railway directory (20), a Train directory (10),
/// `.rw` (20), a CSV route file (45); with none of them it reports nothing.
pub proof fn law_bve_findings(es: Seq<SourceEntry>)
    ensures
        ({
            let d = builtin_detection(BuiltInDetector::Bve, es);
            &&& d.detector == "bve-openbve"@ && d.format == SourceFormat::BveOpenBve
            &&& (exists|i: int| 0 <= i < es.len() && es[i].is_file && eq_ignore_case(#[trigger] es[i].name@, "train.dat"@)) ==> shows(d, 35, "found train.dat"@)
            &&& (exists|i: int| 0 <= i < es.len() && es[i].is_file && eq_ignore_case(#[trigger] es[i].name@, "panel.animated"@)) ==> shows(d, 25, "found panel.animated"@)
            &&& (!(exists|i: int| 0 <= i < es.len() && es[i].is_file && eq_ignore_case(#[trigger] es[i].name@, "panel.animated"@)) && (exists|i: int| 0 <= i < es.len() && es[i].is_file && eq_ignore_case(#[trigger] es[i].name@, "panel.cfg"@))) ==> shows(d, 15, "found panel.cfg"@)
            &&& (exists|i: int| 0 <= i < es.len() && es[i].is_file && eq_ignore_case(#[trigger] es[i].name@, "extensions.cfg"@)) ==> shows(d, 10, "found extensions.cfg"@)
            &&& (exists|i: int| 0 <= i < es.len() && es[i].is_dir && eq_ignore_case(#[trigger] es[i].name@, "railway"@)) ==> shows(d, 20, "found Railway directory"@)
            &&& (exists|i: int| 0 <= i < es.len() && es[i].is_dir && eq_ignore_case(#[trigger] es[i].name@, "train"@)) ==> shows(d, 10, "found Train directory"@)
            &&& (exists|i: int| 0 <= i < es.len() && es[i].is_file && has_ext(#[trigger] es[i].name@, "rw"@)) ==> shows(d, 20, "found BVE route (.rw)"@)
            &&& (exists|i: int| 0 <= i < es.len() && bve_route_hit(#[trigger] es[i])) ==> shows(d, 45, "found CSV file with BVE/OpenBVE route commands"@)
            &&& (!(exists|i: int| 0 <= i < es.len() && es[i].is_file && eq_ignore_case(#[trigger] es[i].name@, "train.dat"@)) && !(exists|i: int| 0 <= i < es.len() && es[i].is_file && eq_ignore_case(#[trigger] es[i].name@, "panel.animated"@)) && !(!(exists|i: int| 0 <= i < es.len() && es[i].is_file && eq_ignore_case(#[trigger] es[i].name@, "panel.animated"@)) && (exists|i: int| 0 <= i < es.len() && es[i].is_file && eq_ignore_case(#[trigger] es[i].name@, "panel.cfg"@))) && !(exists|i: int| 0 <= i < es.len() && es[i].is_file && eq_ignore_case(#[trigger] es[i].name@, "extensions.cfg"@)) && !(exists|i: int| 0 <= i < es.len() && es[i].is_dir && eq_ignore_case(#[trigger] es[i].name@, "railway"@)) && !(exists|i: int| 0 <= i < es.len() && es[i].is_dir && eq_ignore_case(#[trigger] es[i].name@, "train"@)) && !(exists|i: int| 0 <= i < es.len() && es[i].is_file && has_ext(#[trigger] es[i].name@, "rw"@)) && !(exists|i: int| 0 <= i < es.len() && bve_route_hit(#[trigger] es[i]))) ==> d.confidence == 0 && d.evidence.len() == 0
        }),
{
    let f0 = Seq::<(u8, Seq<char>)>::empty();
    let c0 = has_file_named(es, "train.dat"@);
    lemma_note_shows("bve-openbve"@, SourceFormat::BveOpenBve, f0, c0, 35, "found train.dat"@);
    let f1 = note(f0, c0, 35, "found train.dat"@);
    let c1 = has_file_named(es, "panel.animated"@);
    lemma_note_shows("bve-openbve"@, SourceFormat::BveOpenBve, f1, c1, 25, "found panel.animated"@);
    let f2 = note(f1, c1, 25, "found panel.animated"@);
    let c2 = !has_file_named(es, "panel.animated"@) && has_file_named(es, "panel.cfg"@);
    lemma_note_shows("bve-openbve"@, SourceFormat::BveOpenBve, f2, c2, 15, "found panel.cfg"@);
    let f3 = note(f2, c2, 15, "found panel.cfg"@);
    let c3 = has_file_named(es, "extensions.cfg"@);
    lemma_note_shows("bve-openbve"@, SourceFormat::BveOpenBve, f3, c3, 10, "found extensions.cfg"@);
    let f4 = note(f3, c3, 10, "found extensions.cfg"@);
    let c4 = has_dir_named(es, "railway"@);
    lemma_note_shows("bve-openbve"@, SourceFormat::BveOpenBve, f4, c4, 20, "found Railway directory"@);
    let f5 = note(f4, c4, 20, "found Railway directory"@);
    let c5 = has_dir_named(es, "train"@);
    lemma_note_shows("bve-openbve"@, SourceFormat::BveOpenBve, f5, c5, 10, "found Train directory"@);
    let f6 = note(f5, c5, 10, "found Train directory"@);
    let c6 = has_file_ext(es, "rw"@);
    lemma_note_shows("bve-openbve"@, SourceFormat::BveOpenBve, f6, c6, 20, "found BVE route (.rw)"@);
    let f7 = note(f6, c6, 20, "found BVE route (.rw)"@);
    let c7 = exists|i: int| 0 <= i < es.len() && bve_route_hit(#[trigger] es[i]);
    lemma_note_shows("bve-openbve"@, SourceFormat::BveOpenBve, f7, c7, 45, "found CSV file with BVE/OpenBVE route commands"@);
    let f8 = note(f7, c7, 45, "found CSV file with BVE/OpenBVE route commands"@);
    assert(f8 == bve_findings(es));
    lemma_detection_of_fields("bve-openbve"@, SourceFormat::BveOpenBve, f8);
}

/// Law: the RailWorks detector reports `RouteProperties.xml` (65),
/// `Tracks.bin` (20), a Content/Routes layout (15) and an Assets directory
/// (5) exactly where the listing holds them; with none it reports nothing.
pub proof fn law_railworks_findings(es: Seq<SourceEntry>)
    ensures
        ({
            let d = builtin_detection(BuiltInDetector::RailWorks, es);
            &&& d.detector == "railworks"@ && d.format == SourceFormat::RailWorks
            &&& (exists|i: int| 0 <= i < es.len() && es[i].is_file && eq_ignore_case(#[trigger] es[i].name@, "routeproperties.xml"@)) ==> shows(d, 65, "found RouteProperties.xml"@)
            &&& (exists|i: int| 0 <= i < es.len() && es[i].is_file && eq_ignore_case(#[trigger] es[i].name@, "tracks.bin"@)) ==> shows(d, 20, "found Tracks.bin"@)
            &&& ((exists|i: int| 0 <= i < es.len() && es[i].is_dir && eq_ignore_case(#[trigger] es[i].name@, "routes"@)) && (exists|i: int| 0 <= i < es.len() && es[i].is_dir && eq_ignore_case(#[trigger] es[i].name@, "content"@))) ==> shows(d, 15, "found Content/Routes-style directory layout"@)
            &&& (exists|i: int| 0 <= i < es.len() && es[i].is_dir && eq_ignore_case(#[trigger] es[i].name@, "assets"@)) ==> shows(d, 5, "found Assets directory"@)
            &&& (!(exists|i: int| 0 <= i < es.len() && es[i].is_file && eq_ignore_case(#[trigger] es[i].name@, "routeproperties.xml"@)) && !(exists|i: int| 0 <= i < es.len() && es[i].is_file && eq_ignore_case(#[trigger] es[i].name@, "tracks.bin"@)) && !((exists|i: int| 0 <= i < es.len() && es[i].is_dir && eq_ignore_case(#[trigger] es[i].name@, "routes"@)) && (exists|i: int| 0 <= i < es.len() && es[i].is_dir && eq_ignore_case(#[trigger] es[i].name@, "content"@))) && !(exists|i: int| 0 <= i < es.len() && es[i].is_dir && eq_ignore_case(#[trigger] es[i].name@, "assets"@))) ==> d.confidence == 0 && d.evidence.len() == 0
        }),
{
    let f0 = Seq::<(u8, Seq<char>)>::empty();
    let c0 = has_file_named(es, "routeproperties.xml"@);
    lemma_note_shows("railworks"@, SourceFormat::RailWorks, f0, c0, 65, "found RouteProperties.xml"@);
    let f1 = note(f0, c0, 65, "found RouteProperties.xml"@);
    let c1 = has_file_named(es, "tracks.bin"@);
    lemma_note_shows("railworks"@, SourceFormat::RailWorks, f1, c1, 20, "found Tracks.bin"@);
    let f2 = note(f1, c1, 20, "found Tracks.bin"@);
    let c2 = has_dir_named(es, "routes"@) && has_dir_named(es, "content"@);
    lemma_note_shows("railworks"@, SourceFormat::RailWorks, f2, c2, 15, "found Content/Routes-style directory layout"@);
    let f3 = note(f2, c2, 15, "found Content/Routes-style directory layout"@);
    let c3 = has_dir_named(es, "assets"@);
    lemma_note_shows("railworks"@, SourceFormat::RailWorks, f3, c3, 5, "found Assets directory"@);
    let f4 = note(f3, c3, 5, "found Assets directory"@);
    assert(f4 == railworks_findings(es));
    lemma_detection_of_fields("railworks"@, SourceFormat::RailWorks, f4);
}

/// Law: the Loksim3D detector reports `.l3dobj` (50), `.l3dgrp` (35) and
/// `.l3dpack` (60) files exactly where the listing holds them; with none it
/// reports nothing.
pub proof fn law_loksim_findings(es: Seq<SourceEntry>)
    ensures
        ({
            let d = builtin_detection(BuiltInDetector::Loksim, es);
            &&& d.detector == "loksim3d"@ && d.format == SourceFormat::Loksim3D
            &&& (exists|i: int| 0 <= i < es.len() && es[i].is_file && has_ext(#[trigger] es[i].name@, "l3dobj"@)) ==> shows(d, 50, "found Loksim3D object (.l3dobj)"@)
            &&& (exists|i: int| 0 <= i < es.len() && es[i].is_file && has_ext(#[trigger] es[i].name@, "l3dgrp"@)) ==> shows(d, 35, "found Loksim3D object group (.l3dgrp)"@)
            &&& (exists|i: int| 0 <= i < es.len() && es[i].is_file && has_ext(#[trigger] es[i].name@, "l3dpack"@)) ==> shows(d, 60, "found Loksim3D package (.l3dpack)"@)
            &&& (!(exists|i: int| 0 <= i < es.len() && es[i].is_file && has_ext(#[trigger] es[i].name@, "l3dobj"@)) && !(exists|i: int| 0 <= i < es.len() && es[i].is_file && has_ext(#[trigger] es[i].name@, "l3dgrp"@)) && !(exists|i: int| 0 <= i < es.len() && es[i].is_file && has_ext(#[trigger] es[i].name@, "l3dpack"@))) ==> d.confidence == 0 && d.evidence.len() == 0
        }),
{
    let f0 = Seq::<(u8, Seq<char>)>::empty();
    let c0 = has_file_ext(es, "l3dobj"@);
    lemma_note_shows("loksim3d"@, SourceFormat::Loksim3D, f0, c0, 50, "found Loksim3D object (.l3dobj)"@);
    let f1 = note(f0, c0, 50, "found Loksim3D object (.l3dobj)"@);
    let c1 = has_file_ext(es, "l3dgrp"@);
    lemma_note_shows("loksim3d"@, SourceFormat::Loksim3D, f1, c1, 35, "found Loksim3D object group (.l3dgrp)"@);
    let f2 = note(f1, c1, 35, "found Loksim3D object group (.l3dgrp)"@);
    let c2 = has_file_ext(es, "l3dpack"@);
    lemma_note_shows("loksim3d"@, SourceFormat::Loksim3D, f2, c2, 60, "found Loksim3D package (.l3dpack)"@);
    let f3 = note(f2, c2, 60, "found Loksim3D package (.l3dpack)"@);
    assert(f3 == loksim_findings(es));
    lemma_detection_of_fields("loksim3d"@, SourceFormat::Loksim3D, f3);
}

/// The listing is one file whose ASCII-lowercased name is `n`.
pub open spec fn single_file_named(es: Seq<SourceEntry>, n: Seq<char>) -> bool {
    es.len() == 1 && es[0].is_file && lower_seq(es[0].name@) == n
}

/// Law: a source that is a single `*.railweave.json` file is detected as
/// RailWeave interchange, a single `*.geojson` file as GeoJSON, and a single
/// `*.railweave.csv` or `railweave-track.csv` file as a RailWeave track CSV,
/// each with 95 points, ignoring ASCII case.
pub proof fn law_portable_findings(es: Seq<SourceEntry>, n: Seq<char>)
    requires
        single_file_named(es, n),
    ensures
        ends_with(n, ".railweave.json"@) ==> shows(
            builtin_detection(BuiltInDetector::Interchange, es),
            95,
            "found RailWeave interchange file (.railweave.json)"@,
        ),
        ends_with(n, ".geojson"@) ==> shows(
            builtin_detection(BuiltInDetector::GeoJson, es),
            95,
            "found GeoJSON file (.geojson)"@,
        ),
        ends_with(n, ".railweave.csv"@) || n == "railweave-track.csv"@ ==> shows(
            builtin_detection(BuiltInDetector::TrackCsv, es),
            95,
            "found RailWeave track CSV file"@,
        ),
{
    reveal_strlit(".railweave.json");
    reveal_strlit(".geojson");
    reveal_strlit(".railweave.csv");
    reveal_strlit("railweave-track.csv");
    let e = Seq::<(u8, Seq<char>)>::empty();
    if ends_with(n, ".railweave.json"@) {
        lemma_note_shows("railweave-json"@, SourceFormat::RailWeave, e, true, 95, "found RailWeave interchange file (.railweave.json)"@);
    }
    if ends_with(n, ".geojson"@) {
        if ends_with(n, ".railweave.json"@) {
            assert(n.skip(n.len() - 8)[0] == '.');
            assert(n.skip(n.len() - 15)[7] == 'a');
            assert(n[n.len() - 8] == '.');
            assert(n[n.len() - 8] == 'a');
        }
        lemma_note_shows("geojson"@, SourceFormat::GeoJson, e, true, 95, "found GeoJSON file (.geojson)"@);
    }
    if ends_with(n, ".railweave.csv"@) || n == "railweave-track.csv"@ {
        if ends_with(n, ".railweave.json"@) {
            assert(n.skip(n.len() - 15)[14] == 'n');
            assert(n[n.len() - 1] == 'n');
            if n == "railweave-track.csv"@ {
                assert(n[n.len() - 1] == 'v');
            } else {
                assert(n.skip(n.len() - 14)[13] == 'v');
            }
        }
        if ends_with(n, ".geojson"@) {
            assert(n.skip(n.len() - 8)[7] == 'n');
            assert(n[n.len() - 1] == 'n');
            if n == "railweave-track.csv"@ {
                assert(n[n.len() - 1] == 'v');
            } else {
                assert(n.skip(n.len() - 14)[13] == 'v');
            }
        }
        lemma_note_shows("railweave-track-csv"@, SourceFormat::TrackCsv, e, true, 95, "found RailWeave track CSV file"@);
    }
}

/// Some built-in detector reports format `f`.
pub open spec fn has_detector_for(es: Seq<SourceEntry>, f: SourceFormat) -> bool {
    exists|i: int| 0 <= i < builtin_order().len() && #[trigger] builtin_detection(builtin_order()[i], es).format == f
}

/// Law: the built-in detectors have distinct ids and distinct formats, none
/// of them `Unknown`, and every known format has its detector.
pub proof fn law_builtin_detectors_are_distinct(es: Seq<SourceEntry>)
    ensures
        forall|i: int, j: int|
            0 <= i < j < builtin_order().len() ==> #[trigger] builtin_detection(builtin_order()[i], es).detector
                != #[trigger] builtin_detection(builtin_order()[j], es).detector && builtin_detection(
                builtin_order()[i],
                es,
            ).format != builtin_detection(builtin_order()[j], es).format,
        forall|i: int|
            0 <= i < builtin_order().len() ==> #[trigger] builtin_detection(builtin_order()[i], es).format
                != SourceFormat::Unknown,
        forall|f: SourceFormat| f != SourceFormat::Unknown ==> #[trigger] has_detector_for(es, f),
{
    lemma_detection_of_fields("msts-openrails"@, SourceFormat::MstsOpenRails, msts_findings(es));
    lemma_detection_of_fields("trainz"@, SourceFormat::Trainz, trainz_findings(es));
    lemma_detection_of_fields("bve-openbve"@, SourceFormat::BveOpenBve, bve_findings(es));
    lemma_detection_of_fields("railworks"@, SourceFormat::RailWorks, railworks_findings(es));
    lemma_detection_of_fields("loksim3d"@, SourceFormat::Loksim3D, loksim_findings(es));
    lemma_detection_of_fields("railweave-json"@, SourceFormat::RailWeave, interchange_findings(es));
    lemma_detection_of_fields("geojson"@, SourceFormat::GeoJson, geojson_findings(es));
    lemma_detection_of_fields("railweave-track-csv"@, SourceFormat::TrackCsv, track_csv_findings(es));
    reveal_strlit("msts-openrails");
    reveal_strlit("trainz");
    reveal_strlit("bve-openbve");
    reveal_strlit("railworks");
    reveal_strlit("loksim3d");
    reveal_strlit("railweave-json");
    reveal_strlit("geojson");
    reveal_strlit("railweave-track-csv");
    assert("msts-openrails"@.len() == 14);
    assert("trainz"@.len() == 6);
    assert("bve-openbve"@.len() == 11);
    assert("railworks"@.len() == 9);
    assert("loksim3d"@.len() == 8);
    assert("railweave-json"@.len() == 14);
    assert("geojson"@.len() == 7);
    assert("railweave-track-csv"@.len() == 19);
    assert("msts-openrails"@[0] != "railweave-json"@[0]);
    let o = builtin_order();
    assert forall|f: SourceFormat| f != SourceFormat::Unknown implies #[trigger] has_detector_for(es, f) by {
        let i: int = match f {
            SourceFormat::MstsOpenRails => 0,
            SourceFormat::Trainz => 1,
            SourceFormat::BveOpenBve => 2,
            SourceFormat::RailWorks => 3,
            SourceFormat::Loksim3D => 4,
            SourceFormat::RailWeave => 5,
            SourceFormat::GeoJson => 6,
            _ => 7,
        };
        assert(builtin_detection(o[i], es).format == f);
    }
}

} // verus!
