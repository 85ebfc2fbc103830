//! The text rules of an OpenBVE package: folder slugs, station names and the
//! package layout.
use vstd::prelude::*;

use crate::model::{diagnostic_views, Diagnostic, DiagnosticView, Severity};
use crate::order::{insert_pos, insert_sorted, lemma_insert_pos_step, lemma_insert_sorted, sorted_by, strict_order};
use crate::text::{
    chars_of, decimal, lower, occurs_at, push_number, push_str, slice_range, string_of, trim, trimmed,
};

verus! {

/// An ASCII letter or digit.
pub open spec fn is_alnum(c: char) -> bool {
    ('0' <= c && c <= '9') || ('a' <= c && c <= 'z') || ('A' <= c && c <= 'Z')
}

/// The slug after the first `n` characters: letters and digits lowercased,
/// each run of other characters after some output written as one `-`.
pub open spec fn slug_scan(s: Seq<char>, n: int) -> (Seq<char>, bool)
    decreases n,
{
    if n <= 0 {
        (Seq::empty(), false)
    } else {
        let (out, sep) = slug_scan(s, n - 1);
        let c = s[n - 1];
        if is_alnum(c) {
            (out.push(lower(c)), false)
        } else if !sep && out.len() > 0 {
            (out.push('-'), true)
        } else {
            (out, sep)
        }
    }
}

/// `s` without its trailing `-` characters.
pub open spec fn trim_dash_end(s: Seq<char>) -> Seq<char>
    decreases s.len(),
{
    if s.len() > 0 && s.last() == '-' {
        trim_dash_end(s.drop_last())
    } else {
        s
    }
}

/// The folder name of a package (`package_slug`).
pub open spec fn slug(s: Seq<char>) -> Seq<char> {
    trim_dash_end(slug_scan(s, s.len() as int).0)
}

/// A well-formed slug: lowercase ASCII letters, digits and single dashes, with
/// no dash at either end.
pub open spec fn slug_shaped(s: Seq<char>) -> bool {
    &&& forall|k: int|
        0 <= k < s.len() ==> (('0' <= #[trigger] s[k] && s[k] <= '9') || ('a' <= s[k] && s[k] <= 'z')
            || s[k] == '-')
    &&& forall|k: int| 0 <= k < s.len() - 1 ==> !(#[trigger] s[k] == '-' && s[k + 1] == '-')
    &&& s.len() > 0 ==> s[0] != '-' && s.last() != '-'
}

/// The folder name used for a package: ASCII letters and digits, lowercased,
/// with every other run of characters between them turned into one `-`.
pub fn package_slug(value: &str) -> (r: String)
    ensures
        r@ == slug(value@),
{
    let s = chars_of(value);
    let mut out: Vec<char> = Vec::new();
    let mut separator = false;
    let mut i: usize = 0;
    while i < s.len()
        invariant
            i <= s@.len(),
            s@ == value@,
            (out@, separator) == slug_scan(s@, i as int),
        decreases s.len() - i,
    {
        let c = s[i];
        if ('0' <= c && c <= '9') || ('a' <= c && c <= 'z') || ('A' <= c && c <= 'Z') {
            out.push(crate::text::to_lower(c));
            separator = false;
        } else if !separator && out.len() > 0 {
            out.push('-');
            separator = true;
        }
        i += 1;
    }
    let mut end = out.len();
    assert(out@.take(out@.len() as int) =~= out@);
    while end > 0 && out[end - 1] == '-'
        invariant
            end <= out@.len(),
            trim_dash_end(out@) == trim_dash_end(out@.take(end as int)),
        decreases end,
    {
        assert(out@.take(end as int).drop_last() =~= out@.take(end - 1));
        end -= 1;
    }
    assert(out@.take(out@.len() as int) =~= out@);
    let r = slice_range(&out, 0, end);
    assert(r@ =~= out@.take(end as int));
    string_of(&r)
}

proof fn lemma_slug_scan_shape(s: Seq<char>, n: int)
    requires
        0 <= n <= s.len(),
    ensures
        ({
            let (out, sep) = slug_scan(s, n);
            &&& forall|k: int|
                0 <= k < out.len() ==> (('0' <= #[trigger] out[k] && out[k] <= '9') || ('a' <= out[k]
                    && out[k] <= 'z') || out[k] == '-')
            &&& forall|k: int| 0 <= k < out.len() - 1 ==> !(#[trigger] out[k] == '-' && out[k + 1] == '-')
            &&& out.len() > 0 ==> out[0] != '-'
            &&& sep <==> (out.len() > 0 && out.last() == '-')
        }),
    decreases n,
{
    if n > 0 {
        lemma_slug_scan_shape(s, n - 1);
        let (out, sep) = slug_scan(s, n - 1);
        let c = s[n - 1];
        if is_alnum(c) {
            let o2 = out.push(lower(c));
            assert forall|k: int| 0 <= k < o2.len() - 1 implies !(#[trigger] o2[k] == '-' && o2[k + 1]
                == '-') by {
                if k < out.len() - 1 {
                    assert(o2[k] == out[k] && o2[k + 1] == out[k + 1]);
                }
            }
            assert forall|k: int| 0 <= k < o2.len() implies (('0' <= #[trigger] o2[k] && o2[k] <= '9')
                || ('a' <= o2[k] && o2[k] <= 'z') || o2[k] == '-') by {
                if k < out.len() {
                    assert(o2[k] == out[k]);
                }
            }
        } else if !sep && out.len() > 0 {
            let o2 = out.push('-');
            assert forall|k: int| 0 <= k < o2.len() - 1 implies !(#[trigger] o2[k] == '-' && o2[k + 1]
                == '-') by {
                if k < out.len() - 1 {
                    assert(o2[k] == out[k] && o2[k + 1] == out[k + 1]);
                }
            }
            assert forall|k: int| 0 <= k < o2.len() implies (('0' <= #[trigger] o2[k] && o2[k] <= '9')
                || ('a' <= o2[k] && o2[k] <= 'z') || o2[k] == '-') by {
                if k < out.len() {
                    assert(o2[k] == out[k]);
                }
            }
        }
    }
}

proof fn lemma_trim_dash_end(s: Seq<char>)
    ensures
        trim_dash_end(s) == s.take(trim_dash_end(s).len() as int),
        trim_dash_end(s).len() <= s.len(),
        trim_dash_end(s).len() > 0 ==> trim_dash_end(s).last() != '-',
    decreases s.len(),
{
    if s.len() > 0 && s.last() == '-' {
        lemma_trim_dash_end(s.drop_last());
        assert(s.drop_last().take(trim_dash_end(s).len() as int) =~= s.take(
            trim_dash_end(s).len() as int,
        ));
    } else {
        assert(s.take(s.len() as int) =~= s);
    }
}

/// A slug holds only lowercase ASCII letters, digits and single dashes, and
/// neither starts nor ends with a dash.
pub proof fn law_slug_is_well_formed(s: Seq<char>)
    ensures
        slug_shaped(slug(s)),
{
    lemma_slug_scan_shape(s, s.len() as int);
    let out = slug_scan(s, s.len() as int).0;
    lemma_trim_dash_end(out);
    let r = slug(s);
    assert forall|k: int| 0 <= k < r.len() implies (('0' <= #[trigger] r[k] && r[k] <= '9') || ('a'
        <= r[k] && r[k] <= 'z') || r[k] == '-') by {
        assert(r[k] == out[k]);
    }
    assert forall|k: int| 0 <= k < r.len() - 1 implies !(#[trigger] r[k] == '-' && r[k + 1] == '-') by {
        assert(r[k] == out[k] && r[k + 1] == out[k + 1]);
    }
    if r.len() > 0 {
        assert(r[0] == out[0]);
    }
}

/// A character that cannot stand in an OpenBVE station name.
pub open spec fn station_breaker(c: char) -> bool {
    c == ',' || c == ';' || c == '\n' || c == '\r'
}

/// A station name made safe for a route file: commas, semicolons and line
/// breaks become spaces, and the result is trimmed.
pub open spec fn clean_station_name(name: Seq<char>) -> Seq<char> {
    trim(name.map_values(|c: char| if station_breaker(c) { ' ' } else { c }))
}

pub fn station_name(name: &str) -> (r: String)
    ensures
        r@ == clean_station_name(name@),
{
    let s = chars_of(name);
    let mut mapped: Vec<char> = Vec::new();
    let mut i: usize = 0;
    while i < s.len()
        invariant
            i <= s@.len(),
            s@ == name@,
            mapped@ == s@.take(i as int).map_values(
                |c: char| if station_breaker(c) { ' ' } else { c },
            ),
        decreases s.len() - i,
    {
        let c = s[i];
        mapped.push(
            if c == ',' || c == ';' || c == '\n' || c == '\r' {
                ' '
            } else {
                c
            },
        );
        assert(mapped@ =~= s@.take(i + 1).map_values(
            |c: char| if station_breaker(c) { ' ' } else { c },
        ));
        i += 1;
    }
    assert(s@.take(s@.len() as int) =~= s@);
    let t = trimmed(&mapped);
    string_of(&t)
}

/// A rendered OpenBVE route file and what happened while rendering it.
#[derive(Debug)]
pub struct ExportedRoute {
    pub csv: String,
    pub diagnostics: Vec<Diagnostic>,
}

/// How a package is written.
#[derive(Debug)]
pub struct PackageOptions {
    /// The package's display name; the project's title where absent.
    pub name: Option<String>,
    /// Whether a native OpenBVE train found among the assets is copied.
    pub copy_native_openbve_train: bool,
}

/// Where a written package's parts are.
#[derive(Debug)]
pub struct ExportedPackage {
    pub root: String,
    pub route_path: String,
    pub train_path: String,
    pub manifest_path: String,
    pub diagnostics: Vec<Diagnostic>,
}

/// The names a package is written under.
#[derive(Debug)]
pub struct PackageNames {
    /// The name shown to users.
    pub display_name: String,
    /// The folder name under `Railway/Route` and `Train`.
    pub slug: String,
}

/// The display name: the option, else the project title, else a default.
pub open spec fn display_name_of(option: Option<Seq<char>>, title: Option<Seq<char>>) -> Seq<char> {
    match option {
        Some(n) => n,
        None => match title {
            Some(t) => t,
            None => "RailWeave conversion"@,
        },
    }
}

/// The folder name: the slug of the display name, or `railweave` where that is empty.
pub open spec fn folder_of(display: Seq<char>) -> Seq<char> {
    if slug(display).len() == 0 {
        "railweave"@
    } else {
        slug(display)
    }
}

/// The display name and folder name of a package.
pub fn package_names(options: &PackageOptions, title: &Option<String>) -> (r: PackageNames)
    ensures
        r.display_name@ == display_name_of(crate::model::opt_str(options.name), crate::model::opt_str(*title)),
        r.slug@ == folder_of(r.display_name@),
{
    let display_name = match &options.name {
        Some(n) => n.clone(),
        None => match title {
            Some(t) => t.clone(),
            None => "RailWeave conversion".to_owned(),
        },
    };
    let s = package_slug(display_name.as_str());
    let slug = if chars_of(s.as_str()).len() == 0 {
        "railweave".to_owned()
    } else {
        s
    };
    PackageNames { display_name, slug }
}

/// The first index at which `p` occurs in `s`.
pub open spec fn first_occurrence(s: Seq<char>, p: Seq<char>, i: int) -> Option<int>
    decreases s.len() + 1 - i,
{
    if i < 0 || i + p.len() > s.len() {
        None
    } else if occurs_at(s, p, i) {
        Some(i)
    } else {
        first_occurrence(s, p, i + 1)
    }
}

/// `s.replacen(from, to, 1)`: the first occurrence replaced.
pub open spec fn replace_first(s: Seq<char>, from: Seq<char>, to: Seq<char>) -> Seq<char> {
    match first_occurrence(s, from, 0) {
        Some(i) => s.take(i) + to + s.skip(i + from.len()),
        None => s,
    }
}

/// The route file with a `With Train` section naming the package's train
/// folder, put before the first `With Track` line.
pub open spec fn with_train_folder(csv: Seq<char>, slug: Seq<char>) -> Seq<char> {
    replace_first(
        csv,
        "With Track\n"@,
        "With Train\n.Folder "@ + slug + "\n\nWith Track\n"@,
    )
}

pub fn route_with_train_folder(csv: &str, slug: &str) -> (r: String)
    ensures
        r@ == with_train_folder(csv@, slug@),
{
    let s = chars_of(csv);
    let pattern = chars_of("With Track\n");
    proof {
        reveal_strlit("With Track\n");
    }
    let mut i: usize = 0;
    while i <= s.len() && pattern.len() <= s.len() - i
        invariant
            i <= s@.len() + 1,
            pattern@.len() > 0,
            s@ == csv@,
            pattern@ == "With Track\n"@,
            first_occurrence(s@, pattern@, 0) == first_occurrence(s@, pattern@, i as int),
        decreases s.len() - i,
    {
        if crate::text::matches_at(&s, &pattern, i) {
            let mut out = slice_range(&s, 0, i);
            push_str(&mut out, "With Train\n.Folder ");
            push_str(&mut out, slug);
            push_str(&mut out, "\n\nWith Track\n");
            let rest = slice_range(&s, i + pattern.len(), s.len());
            crate::text::append(&mut out, &rest);
            assert(out@ =~= with_train_folder(csv@, slug@));
            return string_of(&out);
        }
        i += 1;
    }
    assert(first_occurrence(s@, pattern@, i as int) is None);
    csv.to_owned()
}

/// The diagnostics of a rendered route that a package keeps: all but the
/// notice that assets are not exported (a package writes its train).
pub open spec fn package_keeps(d: Seq<DiagnosticView>) -> Seq<DiagnosticView> {
    d.filter(|x: DiagnosticView| x.code != "RW414_OPENBVE_ASSETS_NOT_EXPORTED"@)
}

pub fn package_diagnostics(route: &Vec<Diagnostic>) -> (r: Vec<Diagnostic>)
    ensures
        diagnostic_views(r@) == package_keeps(diagnostic_views(route@)),
{
    let ghost keep = |x: DiagnosticView| x.code != "RW414_OPENBVE_ASSETS_NOT_EXPORTED"@;
    let notice = chars_of("RW414_OPENBVE_ASSETS_NOT_EXPORTED");
    let mut out: Vec<Diagnostic> = Vec::new();
    let ghost all = diagnostic_views(route@);
    let mut i: usize = 0;
    assert(all.take(0) =~= Seq::<DiagnosticView>::empty());
    proof {
        reveal(Seq::filter);
    }
    while i < route.len()
        invariant
            i <= route@.len(),
            all == diagnostic_views(route@),
            notice@ == "RW414_OPENBVE_ASSETS_NOT_EXPORTED"@,
            diagnostic_views(out@) == all.take(i as int).filter(keep),
            keep == (|x: DiagnosticView| x.code != "RW414_OPENBVE_ASSETS_NOT_EXPORTED"@),
        decreases route.len() - i,
    {
        let code = chars_of(route[i].code.as_str());
        let d = route[i].duplicate();
        proof {
            all.take(i as int).lemma_filter_push(all[i as int], keep);
            assert(all.take(i + 1) =~= all.take(i as int).push(all[i as int]));
        }
        if !crate::text::slice_eq(&code, &notice) {
            let ghost before = diagnostic_views(out@);
            out.push(d);
            assert(diagnostic_views(out@) =~= before.push(d.view()));
        }
        i += 1;
    }
    assert(all.take(i as int) =~= all);
    out
}

/// Ascending order of gauges.
pub open spec fn narrower() -> spec_fn(u32, u32) -> bool {
    |a: u32, b: u32| a < b
}

/// The distinct gauges of the first `n` edges, ascending (the iteration order
/// of a `BTreeSet`).
pub open spec fn gauge_list(gs: Seq<Option<u32>>, n: int) -> Seq<u32>
    decreases n,
{
    if n <= 0 {
        Seq::empty()
    } else {
        let list = gauge_list(gs, n - 1);
        match gs[n - 1] {
            Some(g) => if list.contains(g) {
                list
            } else {
                insert_sorted(list, g, narrower())
            },
            None => list,
        }
    }
}

/// `{a, b, ...}`, as `Debug` writes a set of numbers.
pub open spec fn set_text(list: Seq<u32>) -> Seq<char>
    decreases list.len(),
{
    if list.len() == 0 {
        "{"@ + "}"@
    } else {
        "{"@ + numbers_text(list) + "}"@
    }
}

/// The numbers separated by `, `.
pub open spec fn numbers_text(list: Seq<u32>) -> Seq<char>
    decreases list.len(),
{
    if list.len() == 0 {
        Seq::empty()
    } else if list.len() == 1 {
        decimal(list[0] as nat)
    } else {
        numbers_text(list.drop_last()) + ", "@ + decimal(list.last() as nat)
    }
}

/// The gauge a route is exported with (the narrowest on the path, else
/// 1435 mm) and the note about it: none where the path has exactly one gauge.
pub open spec fn route_gauge_of(gs: Seq<Option<u32>>) -> (u32, Option<DiagnosticView>) {
    let list = gauge_list(gs, gs.len() as int);
    if list.len() == 0 {
        (
            1435,
            Some(
                DiagnosticView {
                    severity: Severity::Info,
                    code: "RW407_OPENBVE_DEFAULT_GAUGE"@,
                    message: "no gauge is present in the selected IR path; using OpenBVE-compatible default 1435 mm"@,
                    provenance: None,
                },
            ),
        )
    } else if list.len() == 1 {
        (list[0], None)
    } else {
        (
            list[0],
            Some(
                DiagnosticView {
                    severity: Severity::Warning,
                    code: "RW408_OPENBVE_CONFLICTING_GAUGE"@,
                    message: "selected path contains multiple gauges "@ + set_text(list) + "; exporting "@
                        + decimal(list[0] as nat) + " mm"@,
                    provenance: None,
                },
            ),
        )
    }
}

fn contains_u32(v: &Vec<u32>, x: u32) -> (r: bool)
    ensures
        r == v@.contains(x),
{
    let mut i: usize = 0;
    while i < v.len()
        invariant
            i <= v@.len(),
            forall|k: int| 0 <= k < i ==> v@[k] != x,
        decreases v.len() - i,
    {
        if v[i] == x {
            return true;
        }
        i += 1;
    }
    false
}

/// Chooses the gauge of an exported route from the gauges of its path edges.
pub fn route_gauge(gauges: &[Option<u32>]) -> (r: (u32, Option<Diagnostic>))
    ensures
        r.0 == route_gauge_of(gauges@).0,
        match r.1 {
            Some(d) => route_gauge_of(gauges@).1 == Some(d.view()),
            None => route_gauge_of(gauges@).1 is None,
        },
{
    let ghost before = narrower();
    let mut list: Vec<u32> = Vec::new();
    let mut i: usize = 0;
    while i < gauges.len()
        invariant
            i <= gauges@.len(),
            before == narrower(),
            list@ == gauge_list(gauges@, i as int),
        decreases gauges.len() - i,
    {
        match gauges[i] {
            Some(g) => {
                if !contains_u32(&list, g) {
                    let ghost cur = list@;
                    let mut p = list.len();
                    assert(cur.take(p as int) =~= cur);
                    while p > 0 && g < list[p - 1]
                        invariant
                            p <= list@.len(),
                            cur == list@,
                            before == narrower(),
                            insert_pos(cur.take(p as int), g, before) == insert_pos(cur, g, before),
                        decreases p,
                    {
                        proof {
                            lemma_insert_pos_step(cur, g, before, p as int);
                        }
                        p -= 1;
                    }
                    proof {
                        if p > 0 {
                            lemma_insert_pos_step(cur, g, before, p as int);
                        }
                    }
                    list.insert(p, g);
                }
            },
            None => {},
        }
        i += 1;
    }
    assert(gauges@.take(gauges@.len() as int) =~= gauges@);
    if list.len() == 0 {
        return (
            1435,
            Some(
                Diagnostic::new(
                    Severity::Info,
                    "RW407_OPENBVE_DEFAULT_GAUGE",
                    "no gauge is present in the selected IR path; using OpenBVE-compatible default 1435 mm".to_owned(),
                ),
            ),
        );
    }
    if list.len() == 1 {
        return (list[0], None);
    }
    let mut text: Vec<char> = Vec::new();
    let mut j: usize = 0;
    while j < list.len()
        invariant
            j <= list@.len(),
            text@ == numbers_text(list@.take(j as int)),
        decreases list.len() - j,
    {
        assert(list@.take(j + 1).drop_last() =~= list@.take(j as int));
        assert(list@.take(j + 1)[0] == list@[0]);
        if j > 0 {
            push_str(&mut text, ", ");
        }
        push_number(&mut text, list[j] as u64);
        j += 1;
    }
    assert(list@.take(j as int) =~= list@);
    let mut m: Vec<char> = Vec::new();
    push_str(&mut m, "selected path contains multiple gauges ");
    push_str(&mut m, "{");
    crate::text::append(&mut m, &text);
    push_str(&mut m, "}");
    push_str(&mut m, "; exporting ");
    push_number(&mut m, list[0] as u64);
    push_str(&mut m, " mm");
    assert(set_text(list@) == "{"@ + numbers_text(list@) + "}"@);
    assert(m@ =~= "selected path contains multiple gauges "@ + set_text(list@) + "; exporting "@ + decimal(
        list@[0] as nat,
    ) + " mm"@);
    (list[0], Some(Diagnostic::new(Severity::Warning, "RW408_OPENBVE_CONFLICTING_GAUGE", string_of(&m))))
}

/// The gauges of a path come out strictly ascending, each once.
pub proof fn law_gauges_ascend(gs: Seq<Option<u32>>, n: int)
    requires
        0 <= n <= gs.len(),
    ensures
        forall|i: int, j: int|
            0 <= i < j < gauge_list(gs, n).len() ==> #[trigger] gauge_list(gs, n)[i] < #[trigger] gauge_list(
                gs,
                n,
            )[j],
    decreases n,
{
    if n > 0 {
        law_gauges_ascend(gs, n - 1);
        let list = gauge_list(gs, n - 1);
        if let Some(g) = gs[n - 1] {
            if !list.contains(g) {
                assert(strict_order(narrower()));
                assert(sorted_by(list, narrower()));
                lemma_insert_sorted(list, g, narrower());
                let r = insert_sorted(list, g, narrower());
                crate::order::lemma_insert_pos(list, g, narrower());
                let p = insert_pos(list, g, narrower());
                assert(r =~= list.take(p).push(g) + list.skip(p));
                assert forall|i: int, j: int| 0 <= i < j < r.len() implies #[trigger] r[i] < #[trigger] r[j] by {
                    assert(!narrower()(r[j], r[i]));
                    if r[i] == r[j] {
                        if i < p && j < p {
                        } else if i < p && j == p {
                            assert(list[i] == g);
                        } else if i == p {
                            assert(list[j - 1] == g);
                        } else if i < p {
                        } else {
                        }
                    }
                }
            }
        }
    }
}

/// Engines and trailers of an exported train: engines counted from the
/// selected roles (at least one), cars from the larger of the selection and
/// the vehicles found (at least one), and whether the front car is an engine
/// (also when nothing is selected).
pub open spec fn train_cars_of(engines: Seq<bool>, vehicles: nat) -> (nat, nat, bool) {
    let motors = engines.filter(|e: bool| e).len();
    let motors = if motors < 1 { 1 } else { motors };
    let total = if engines.len() >= vehicles { engines.len() } else { vehicles };
    let total = if total < 1 { 1 } else { total };
    (motors, if total >= motors { (total - motors) as nat } else { 0 }, if engines.len() > 0 { engines[0] } else { true })
}

pub fn train_cars(engines: &[bool], vehicles: usize) -> (r: (usize, usize, bool))
    ensures
        (r.0 as nat, r.1 as nat, r.2) == train_cars_of(engines@, vehicles as nat),
{
    let mut motors: usize = 0;
    let mut i: usize = 0;
    proof {
        reveal(Seq::filter);
    }
    assert(engines@.take(0) =~= Seq::<bool>::empty());
    while i < engines.len()
        invariant
            i <= engines@.len(),
            motors == engines@.take(i as int).filter(|e: bool| e).len(),
            motors <= i,
        decreases engines.len() - i,
    {
        proof {
            engines@.take(i as int).lemma_filter_push(engines@[i as int], |e: bool| e);
            assert(engines@.take(i + 1) =~= engines@.take(i as int).push(engines@[i as int]));
        }
        if engines[i] {
            motors += 1;
        }
        i += 1;
    }
    assert(engines@.take(i as int) =~= engines@);
    let motors = if motors < 1 { 1 } else { motors };
    let total = if engines.len() >= vehicles { engines.len() } else { vehicles };
    let total = if total < 1 { 1 } else { total };
    let trailers = if total >= motors { total - motors } else { 0 };
    let front = if engines.len() > 0 { engines[0] } else { true };
    (motors, trailers, front)
}

} // verus!
