//! The text a user reads: diagnostic lines and scan reports.
use vstd::prelude::*;

use crate::detect::{Detection, DetectionView, detection_views};
use crate::model::{format_label, Diagnostic, Severity};
use crate::text::{decimal, push_number, push_str, string_of};

verus! {

pub open spec fn severity_label(s: Severity) -> Seq<char> {
    match s {
        Severity::Info => "info"@,
        Severity::Warning => "warning"@,
        Severity::Error => "error"@,
    }
}

/// `<severity> [<code>]: <message>`.
pub fn diagnostic_line(d: &Diagnostic) -> (r: String)
    ensures
        r@ == severity_label(d.severity) + " ["@ + d.code@ + "]: "@ + d.message@,
{
    let mut v: Vec<char> = Vec::new();
    push_str(
        &mut v,
        match d.severity {
            Severity::Info => "info",
            Severity::Warning => "warning",
            Severity::Error => "error",
        },
    );
    push_str(&mut v, " [");
    push_str(&mut v, d.code.as_str());
    push_str(&mut v, "]: ");
    push_str(&mut v, d.message.as_str());
    string_of(&v)
}

/// The lines reporting one detection: its rank, format and confidence, then
/// one line per piece of evidence.
pub open spec fn detection_lines(d: DetectionView, best: bool) -> Seq<Seq<char>> {
    seq![
        (if best { "Best match: "@ } else { "Alternative: "@ }) + format_label(d.format) + " ("@
            + decimal(d.confidence as nat) + "%)"@,
    ] + Seq::new(d.evidence.len(), |k: int| "  - "@ + d.evidence[k])
}

/// The lines of the detections from the `n`-th on.
pub open spec fn detections_lines(ds: Seq<DetectionView>, n: int) -> Seq<Seq<char>>
    decreases n,
{
    if n <= 0 {
        Seq::empty()
    } else {
        detections_lines(ds, n - 1) + detection_lines(ds[n - 1], n - 1 == 0)
    }
}

/// What `scan` prints for a source and its detections.
pub open spec fn scan_lines(display: Seq<char>, ds: Seq<DetectionView>) -> Seq<Seq<char>> {
    if ds.len() == 0 {
        seq!["Source: "@ + display, "Format: unknown"@, "No known simulator fingerprints were found."@]
    } else {
        seq!["Source: "@ + display] + detections_lines(ds, ds.len() as int)
    }
}

pub open spec fn lines_view(v: Seq<String>) -> Seq<Seq<char>> {
    v.map_values(|s: String| s@)
}

fn push_line(out: &mut Vec<String>, line: Vec<char>)
    ensures
        lines_view(final(out)@) == lines_view(old(out)@).push(line@),
{
    let s = string_of(&line);
    let ghost before = out@;
    out.push(s);
    assert(lines_view(out@) =~= lines_view(before).push(line@));
}

/// The report of a scan: the source, then the best detection and the
/// alternatives with their evidence, or a note that nothing was recognised.
pub fn scan_report(display: &str, detections: &Vec<Detection>) -> (r: Vec<String>)
    ensures
        lines_view(r@) == scan_lines(display@, detection_views(detections@)),
{
    let ghost ds = detection_views(detections@);
    let mut out: Vec<String> = Vec::new();
    let mut first: Vec<char> = Vec::new();
    push_str(&mut first, "Source: ");
    push_str(&mut first, display);
    push_line(&mut out, first);
    if detections.len() == 0 {
        let mut a: Vec<char> = Vec::new();
        push_str(&mut a, "Format: unknown");
        push_line(&mut out, a);
        let mut b: Vec<char> = Vec::new();
        push_str(&mut b, "No known simulator fingerprints were found.");
        push_line(&mut out, b);
        assert(lines_view(out@) =~= scan_lines(display@, ds));
        return out;
    }
    let ghost head = lines_view(out@);
    let mut i: usize = 0;
    while i < detections.len()
        invariant
            i <= detections@.len(),
            ds == detection_views(detections@),
            lines_view(out@) == head + detections_lines(ds, i as int),
        decreases detections.len() - i,
    {
        let d = &detections[i];
        assert(ds[i as int] == d@);
        let ghost before = lines_view(out@);
        let mut line: Vec<char> = Vec::new();
        push_str(&mut line, if i == 0 { "Best match: " } else { "Alternative: " });
        push_str(&mut line, d.format.label());
        push_str(&mut line, " (");
        push_number(&mut line, d.confidence as u64);
        push_str(&mut line, "%)");
        push_line(&mut out, line);
        let mut k: usize = 0;
        while k < d.evidence.len()
            invariant
                k <= d.evidence@.len(),
                lines_view(out@) == before + detection_lines(d@, i == 0).take(k + 1),
            decreases d.evidence.len() - k,
        {
            let mut e: Vec<char> = Vec::new();
            push_str(&mut e, "  - ");
            push_str(&mut e, d.evidence[k].as_str());
            let ghost cur = lines_view(out@);
            push_line(&mut out, e);
            assert(detection_lines(d@, i == 0).take(k + 2) =~= detection_lines(d@, i == 0).take(k + 1).push(
                "  - "@ + d.evidence@[k as int]@,
            ));
            k += 1;
        }
        assert(detection_lines(d@, i == 0).take(k + 1) =~= detection_lines(d@, i == 0));
        assert(lines_view(out@) =~= head + detections_lines(ds, i + 1));
        i += 1;
    }
    assert(lines_view(out@) =~= scan_lines(display@, ds));
    out
}

} // verus!
