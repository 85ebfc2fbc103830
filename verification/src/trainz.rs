//! Trainz `config.txt` (ACS text) metadata.
use vstd::prelude::*;

use crate::keymap::KeyMap;
use crate::text::{chars_of, ends_with, eq_ignore_case, has_prefix, has_suffix, is_upper, is_ws, is_whitespace, lines, lower_seq, lowercase, slice_eq, slice_range, split_lines, starts_with, string_of, trim, trimmed, eq_ignore_ascii_case, views};

verus! {

/// Top-level metadata of a Trainz asset.
#[derive(Debug)]
pub struct TrainzConfig {
    pub kind: Option<String>,
    pub username: Option<String>,
    pub kuid: Option<String>,
    pub trainz_build: Option<String>,
    pub map_kuid: Option<String>,
    /// Keys the native adapter does not map, in key order.
    pub unknown_keys: KeyMap<String>,
}

/// A line of `config.txt` that was not taken over unchanged.
#[derive(Debug)]
pub struct TrainzConfigDiagnostic {
    pub line: usize,
    pub key: Option<String>,
    pub message: String,
}

/// The metadata of a `config.txt` together with what could not be represented.
#[derive(Debug)]
pub struct TrainzConfigParse {
    pub config: TrainzConfig,
    pub diagnostics: Vec<TrainzConfigDiagnostic>,
}

/// What a parse says of the metadata fields.
pub struct TrainzConfigModel {
    pub kind: Option<Seq<char>>,
    pub username: Option<Seq<char>>,
    pub kuid: Option<Seq<char>>,
    pub trainz_build: Option<Seq<char>>,
    pub map_kuid: Option<Seq<char>>,
    pub unknown_keys: Map<Seq<char>, Seq<char>>,
}

/// What a parse says of one diagnostic.
pub struct DiagnosticModel {
    pub line: nat,
    pub key: Option<Seq<char>>,
    pub message: Seq<char>,
}

/// The state of the line scan: container depth, the top-level keys seen so far,
/// the metadata gathered and the diagnostics written.
pub struct ScanState {
    pub depth: nat,
    pub seen: Set<Seq<char>>,
    pub config: TrainzConfigModel,
    pub diagnostics: Seq<DiagnosticModel>,
}

pub open spec fn opt_view(o: Option<String>) -> Option<Seq<char>> {
    match o {
        Some(s) => Some(s@),
        None => None,
    }
}

impl TrainzConfig {
    pub open spec fn view(&self) -> TrainzConfigModel {
        TrainzConfigModel {
            kind: opt_view(self.kind),
            username: opt_view(self.username),
            kuid: opt_view(self.kuid),
            trainz_build: opt_view(self.trainz_build),
            map_kuid: opt_view(self.map_kuid),
            unknown_keys: self.unknown_keys.view().map_values(|s: String| s@),
        }
    }
}

impl TrainzConfigDiagnostic {
    pub open spec fn view(&self) -> DiagnosticModel {
        DiagnosticModel { line: self.line as nat, key: opt_view(self.key), message: self.message@ }
    }
}

pub open spec fn diagnostics_view(d: Seq<TrainzConfigDiagnostic>) -> Seq<DiagnosticModel> {
    d.map_values(|x: TrainzConfigDiagnostic| x.view())
}

pub open spec fn msg_comment() -> Seq<char> {
    "Trainz config does not support comment lines"@
}

pub open spec fn msg_unmatched() -> Seq<char> {
    "unmatched Trainz container closing brace"@
}

pub open spec fn msg_unsupported() -> Seq<char> {
    "unsupported Trainz config line; expected key/value metadata"@
}

pub open spec fn msg_uppercase() -> Seq<char> {
    "uppercase ASCII is not valid in an ACS Text Format key"@
}

pub open spec fn msg_duplicate() -> Seq<char> {
    "duplicate Trainz metadata key in the same scope"@
}

pub open spec fn msg_empty() -> Seq<char> {
    "empty Trainz metadata value"@
}

pub open spec fn msg_preserved() -> Seq<char> {
    "Trainz metadata key is preserved but not mapped by the native adapter yet"@
}

pub open spec fn msg_unterminated() -> Seq<char> {
    "unterminated Trainz metadata container"@
}

/// Lines that look like comments in other formats; ACS text has none.
pub open spec fn looks_like_comment(line: Seq<char>) -> bool {
    ||| starts_with(line, "//"@)
    ||| starts_with(line, "#"@)
    ||| starts_with(line, ";"@)
    ||| eq_ignore_case(line, "rem"@)
    ||| (line.len() >= 4 && eq_ignore_case(line.take(4), "rem "@))
}

/// Index of the first whitespace character at or after `start`, or the length.
pub open spec fn first_ws(s: Seq<char>, start: int) -> int
    decreases s.len() - start,
{
    if start < 0 || start >= s.len() {
        s.len() as int
    } else if is_ws(s[start]) {
        start
    } else {
        first_ws(s, start + 1)
    }
}

/// `splitn(2, char::is_whitespace)`: the key before the first whitespace
/// character and the trimmed rest; none when the line has no whitespace.
pub open spec fn split_key_value(line: Seq<char>) -> Option<(Seq<char>, Seq<char>)> {
    let w = first_ws(line, 0);
    if w >= line.len() {
        None
    } else {
        Some((line.take(w), trim(line.skip(w + 1))))
    }
}

/// A value enclosed in double quotes loses them.
pub open spec fn unquote(v: Seq<char>) -> Seq<char> {
    if v.len() >= 2 && v[0] == '"' && v.last() == '"' {
        v.subrange(1, v.len() - 1)
    } else {
        v
    }
}

pub open spec fn has_upper(s: Seq<char>) -> bool {
    exists|j: int| 0 <= j < s.len() && is_upper(s[j])
}

/// Whether the first non-blank line at or after `j` is an opening brace.
pub open spec fn opens_container(lines: Seq<Seq<char>>, j: int) -> bool
    decreases lines.len() - j,
{
    if j < 0 || j >= lines.len() {
        false
    } else if trim(lines[j]).len() == 0 {
        opens_container(lines, j + 1)
    } else {
        trim(lines[j]) == "{"@
    }
}

pub open spec fn with_diagnostic(
    st: ScanState,
    line: nat,
    key: Option<Seq<char>>,
    message: Seq<char>,
) -> ScanState {
    ScanState {
        depth: st.depth,
        seen: st.seen,
        config: st.config,
        diagnostics: st.diagnostics.push(DiagnosticModel { line, key, message }),
    }
}

pub open spec fn with_depth(st: ScanState, depth: nat) -> ScanState {
    ScanState { depth, seen: st.seen, config: st.config, diagnostics: st.diagnostics }
}

pub open spec fn with_config(st: ScanState, config: TrainzConfigModel) -> ScanState {
    ScanState { depth: st.depth, seen: st.seen, config, diagnostics: st.diagnostics }
}

/// Records `value` under the metadata field that `key` names, or keeps it as an
/// unknown key and says so.
pub open spec fn assign(st: ScanState, line: nat, key: Seq<char>, value: Seq<char>) -> ScanState {
    let c = st.config;
    if key == "kind"@ {
        with_config(st, TrainzConfigModel { kind: Some(value), ..c })
    } else if key == "username"@ {
        with_config(st, TrainzConfigModel { username: Some(value), ..c })
    } else if key == "kuid"@ {
        with_config(st, TrainzConfigModel { kuid: Some(value), ..c })
    } else if key == "trainz-build"@ {
        with_config(st, TrainzConfigModel { trainz_build: Some(value), ..c })
    } else if key == "map-kuid"@ || key == "map_kuid"@ {
        with_config(st, TrainzConfigModel { map_kuid: Some(value), ..c })
    } else {
        with_diagnostic(
            with_config(
                st,
                TrainzConfigModel { unknown_keys: c.unknown_keys.insert(key, value), ..c },
            ),
            line,
            Some(key),
            msg_preserved(),
        )
    }
}

/// A key/value line at the top level.
pub open spec fn scan_key_value(
    st: ScanState,
    line: nat,
    raw_key0: Seq<char>,
    raw_value: Seq<char>,
) -> ScanState {
    let raw_key = trim(raw_key0);
    let key = lower_seq(raw_key);
    let st1 = if has_upper(raw_key) {
        with_diagnostic(st, line, Some(key), msg_uppercase())
    } else {
        st
    };
    if st1.seen.contains(key) {
        with_diagnostic(st1, line, Some(key), msg_duplicate())
    } else {
        let value = unquote(trim(raw_value));
        let st2 = ScanState {
            depth: st1.depth,
            seen: st1.seen.insert(key),
            config: st1.config,
            diagnostics: st1.diagnostics,
        };
        let st3 = if value.len() == 0 {
            with_diagnostic(st2, line, Some(key), msg_empty())
        } else {
            st2
        };
        assign(st3, line, key, value)
    }
}

/// The effect of line `index` (numbered `index + 1`) on the scan.
pub open spec fn scan_line(lines: Seq<Seq<char>>, index: int, st: ScanState) -> ScanState {
    let n = (index + 1) as nat;
    let line = trim(lines[index]);
    if line.len() == 0 {
        st
    } else if looks_like_comment(line) {
        with_diagnostic(st, n, None, msg_comment())
    } else if line == "}"@ {
        if st.depth == 0 {
            with_diagnostic(st, n, None, msg_unmatched())
        } else {
            with_depth(st, (st.depth - 1) as nat)
        }
    } else if ends_with(line, "{"@) {
        with_depth(st, st.depth + 1)
    } else if st.depth > 0 {
        st
    } else {
        match split_key_value(line) {
            None => if opens_container(lines, index + 1) {
                st
            } else {
                with_diagnostic(st, n, None, msg_unsupported())
            },
            Some(kv) => scan_key_value(st, n, kv.0, kv.1),
        }
    }
}

pub open spec fn initial_state() -> ScanState {
    ScanState {
        depth: 0,
        seen: Set::empty(),
        config: TrainzConfigModel {
            kind: None,
            username: None,
            kuid: None,
            trainz_build: None,
            map_kuid: None,
            unknown_keys: Map::empty(),
        },
        diagnostics: Seq::empty(),
    }
}

/// The scan after the first `k` lines.
pub open spec fn scan_lines(lines: Seq<Seq<char>>, k: nat) -> ScanState
    decreases k,
{
    if k == 0 {
        initial_state()
    } else {
        scan_line(lines, k - 1, scan_lines(lines, (k - 1) as nat))
    }
}

/// The result of parsing `input`: the metadata and the diagnostics in order.
pub open spec fn trainz_parse(input: Seq<char>) -> (TrainzConfigModel, Seq<DiagnosticModel>) {
    let ls = lines(input);
    let st = scan_lines(ls, ls.len());
    if st.depth > 0 {
        let at = if ls.len() == 0 { 1nat } else { ls.len() };
        (st.config, st.diagnostics.push(DiagnosticModel { line: at, key: None, message: msg_unterminated() }))
    } else {
        (st.config, st.diagnostics)
    }
}


/// The value that the metadata holds for a top-level key.
pub open spec fn field_of(c: TrainzConfigModel, key: Seq<char>) -> Option<Seq<char>> {
    if key == "kind"@ {
        c.kind
    } else if key == "username"@ {
        c.username
    } else if key == "kuid"@ {
        c.kuid
    } else if key == "trainz-build"@ {
        c.trainz_build
    } else if key == "map-kuid"@ || key == "map_kuid"@ {
        c.map_kuid
    } else if c.unknown_keys.contains_key(key) {
        Some(c.unknown_keys[key])
    } else {
        None
    }
}

/// Keys that share one metadata field, so that neither owns it alone.
pub open spec fn shares_field(key: Seq<char>) -> bool {
    key == "map-kuid"@ || key == "map_kuid"@
}

/// Diagnostics carry line numbers between 1 and `hi`, in ascending order.
pub open spec fn lines_in_order(d: Seq<DiagnosticModel>, hi: nat) -> bool {
    &&& forall|i: int| 0 <= i < d.len() ==> 1 <= #[trigger] d[i].line <= hi
    &&& forall|i: int, j: int| 0 <= i < j < d.len() ==> #[trigger] d[i].line <= #[trigger] d[j].line
}

/// `after` extends `before` with diagnostics for line `n` only.
pub open spec fn extends_at(before: Seq<DiagnosticModel>, after: Seq<DiagnosticModel>, n: nat) -> bool {
    &&& before.len() <= after.len()
    &&& after.take(before.len() as int) == before
    &&& forall|j: int| before.len() <= j < after.len() ==> #[trigger] after[j].line == n
}

proof fn lemma_extends_trans(a: Seq<DiagnosticModel>, b: Seq<DiagnosticModel>, c: Seq<DiagnosticModel>, n: nat)
    requires
        extends_at(a, b, n),
        extends_at(b, c, n),
    ensures
        extends_at(a, c, n),
{
    assert(c.take(a.len() as int) =~= b.take(a.len() as int));
    assert forall|j: int| a.len() <= j < c.len() implies #[trigger] c[j].line == n by {
        if j < b.len() {
            assert(c[j] == b[j]);
        }
    }
}

proof fn lemma_push_extends(d: Seq<DiagnosticModel>, m: DiagnosticModel)
    ensures
        extends_at(d, d.push(m), m.line),
{
    assert(d.push(m).take(d.len() as int) =~= d);
}

proof fn lemma_extends_refl(d: Seq<DiagnosticModel>, n: nat)
    ensures
        extends_at(d, d, n),
{
    assert(d.take(d.len() as int) =~= d);
}

proof fn lemma_key_value_extends(st: ScanState, n: nat, k: Seq<char>, v: Seq<char>)
    ensures
        extends_at(st.diagnostics, scan_key_value(st, n, k, v).diagnostics, n),
        scan_key_value(st, n, k, v).depth == st.depth,
        st.seen.subset_of(scan_key_value(st, n, k, v).seen),
{
    let raw_key = trim(k);
    let key = lower_seq(raw_key);
    let st1 = if has_upper(raw_key) {
        with_diagnostic(st, n, Some(key), msg_uppercase())
    } else {
        st
    };
    lemma_extends_refl(st.diagnostics, n);
    if has_upper(raw_key) {
        lemma_push_extends(st.diagnostics, DiagnosticModel { line: n, key: Some(key), message: msg_uppercase() });
    }
    if st1.seen.contains(key) {
        lemma_push_extends(st1.diagnostics, DiagnosticModel { line: n, key: Some(key), message: msg_duplicate() });
        lemma_extends_trans(st.diagnostics, st1.diagnostics, scan_key_value(st, n, k, v).diagnostics, n);
    } else {
        let value = unquote(trim(v));
        let st2 = ScanState { depth: st1.depth, seen: st1.seen.insert(key), config: st1.config, diagnostics: st1.diagnostics };
        let st3 = if value.len() == 0 { with_diagnostic(st2, n, Some(key), msg_empty()) } else { st2 };
        lemma_extends_refl(st2.diagnostics, n);
        if value.len() == 0 {
            lemma_push_extends(st2.diagnostics, DiagnosticModel { line: n, key: Some(key), message: msg_empty() });
        }
        lemma_extends_trans(st.diagnostics, st1.diagnostics, st3.diagnostics, n);
        lemma_extends_refl(st3.diagnostics, n);
        lemma_push_extends(st3.diagnostics, DiagnosticModel { line: n, key: Some(key), message: msg_preserved() });
        lemma_extends_trans(st.diagnostics, st3.diagnostics, scan_key_value(st, n, k, v).diagnostics, n);
    }
}

proof fn lemma_line_extends(ls: Seq<Seq<char>>, i: int, st: ScanState)
    requires
        0 <= i < ls.len(),
    ensures
        extends_at(st.diagnostics, scan_line(ls, i, st).diagnostics, (i + 1) as nat),
        st.seen.subset_of(scan_line(ls, i, st).seen),
{
    let n = (i + 1) as nat;
    let line = trim(ls[i]);
    lemma_extends_refl(st.diagnostics, n);
    if line.len() == 0 {
    } else if looks_like_comment(line) {
        lemma_push_extends(st.diagnostics, DiagnosticModel { line: n, key: None, message: msg_comment() });
    } else if line == "}"@ {
        lemma_push_extends(st.diagnostics, DiagnosticModel { line: n, key: None, message: msg_unmatched() });
    } else if ends_with(line, "{"@) {
    } else if st.depth > 0 {
    } else {
        match split_key_value(line) {
            None => {
                lemma_push_extends(st.diagnostics, DiagnosticModel { line: n, key: None, message: msg_unsupported() });
            },
            Some(kv) => {
                lemma_key_value_extends(st, n, kv.0, kv.1);
            },
        }
    }
}

/// Every diagnostic of the first `k` lines names one of those lines, and the
/// diagnostics come in line order.
pub proof fn lemma_scan_lines_in_order(ls: Seq<Seq<char>>, k: nat)
    requires
        k <= ls.len(),
    ensures
        lines_in_order(scan_lines(ls, k).diagnostics, k),
    decreases k,
{
    if k > 0 {
        let prev = scan_lines(ls, (k - 1) as nat);
        lemma_scan_lines_in_order(ls, (k - 1) as nat);
        lemma_line_extends(ls, k - 1, prev);
        let d = scan_lines(ls, k).diagnostics;
        assert forall|i: int| 0 <= i < d.len() implies 1 <= #[trigger] d[i].line <= k by {
            if i < prev.diagnostics.len() {
                assert(d[i] == d.take(prev.diagnostics.len() as int)[i]);
            }
        }
        assert forall|i: int, j: int| 0 <= i < j < d.len() implies #[trigger] d[i].line <= #[trigger] d[j].line by {
            if j < prev.diagnostics.len() {
                assert(d[i] == d.take(prev.diagnostics.len() as int)[i]);
                assert(d[j] == d.take(prev.diagnostics.len() as int)[j]);
                assert(prev.diagnostics[i].line <= prev.diagnostics[j].line);
            } else if i < prev.diagnostics.len() {
                assert(d[i] == d.take(prev.diagnostics.len() as int)[i]);
            }
        }
    }
}

/// Law: the diagnostics of a parse name lines of the input (counting from 1; an
/// empty input counts as one line) and come in line order.
pub proof fn law_diagnostics_in_line_order(input: Seq<char>)
    ensures
        lines_in_order(trainz_parse(input).1, if lines(input).len() == 0 { 1nat } else { lines(input).len() }),
{
    let ls = lines(input);
    let hi = if ls.len() == 0 { 1nat } else { ls.len() };
    lemma_scan_lines_in_order(ls, ls.len());
    let d = scan_lines(ls, ls.len()).diagnostics;
    assert forall|i: int| 0 <= i < d.len() implies 1 <= #[trigger] d[i].line <= hi by {}
    if scan_lines(ls, ls.len()).depth > 0 {
        let d2 = trainz_parse(input).1;
        assert forall|i: int| 0 <= i < d2.len() implies 1 <= #[trigger] d2[i].line <= hi by {
            if i < d.len() {
                assert(d2[i] == d[i]);
            }
        }
        assert forall|i: int, j: int| 0 <= i < j < d2.len() implies #[trigger] d2[i].line <= #[trigger] d2[j].line by {
            assert(d2[i] == d[i]);
            if j < d.len() {
                assert(d2[j] == d[j]);
            }
        }
    }
}

proof fn lemma_key_value_keeps(st: ScanState, n: nat, k: Seq<char>, v: Seq<char>, key: Seq<char>)
    requires
        st.seen.contains(key),
        !shares_field(key),
    ensures
        field_of(scan_key_value(st, n, k, v).config, key) == field_of(st.config, key),
{
    let raw_key = trim(k);
    let k2 = lower_seq(raw_key);
    if k2 == key {
    } else if !st.seen.contains(k2) {
        let value = unquote(trim(v));
        let c = st.config;
        if !(k2 == "kind"@ || k2 == "username"@ || k2 == "kuid"@ || k2 == "trainz-build"@ || k2 == "map-kuid"@ || k2 == "map_kuid"@) {
            assert(c.unknown_keys.insert(k2, value).contains_key(key) == c.unknown_keys.contains_key(key));
        }
    }
}

proof fn lemma_line_keeps(ls: Seq<Seq<char>>, i: int, st: ScanState, key: Seq<char>)
    requires
        0 <= i < ls.len(),
        st.seen.contains(key),
        !shares_field(key),
    ensures
        field_of(scan_line(ls, i, st).config, key) == field_of(st.config, key),
        scan_line(ls, i, st).seen.contains(key),
{
    lemma_line_extends(ls, i, st);
    let line = trim(ls[i]);
    if line.len() == 0 {
    } else if looks_like_comment(line) {
    } else if line == "}"@ {
    } else if ends_with(line, "{"@) {
    } else if st.depth > 0 {
    } else {
        match split_key_value(line) {
            None => {},
            Some(kv) => {
                lemma_key_value_keeps(st, (i + 1) as nat, kv.0, kv.1, key);
            },
        }
    }
}

/// Once the scan has seen a top-level key, later lines do not change its value.
pub proof fn lemma_seen_key_kept(ls: Seq<Seq<char>>, i: nat, j: nat, key: Seq<char>)
    requires
        i <= j <= ls.len(),
        scan_lines(ls, i).seen.contains(key),
        !shares_field(key),
    ensures
        scan_lines(ls, j).seen.contains(key),
        field_of(scan_lines(ls, j).config, key) == field_of(scan_lines(ls, i).config, key),
    decreases j - i,
{
    if i < j {
        lemma_seen_key_kept(ls, i, (j - 1) as nat, key);
        lemma_line_keeps(ls, j - 1, scan_lines(ls, (j - 1) as nat), key);
    }
}

/// Law: a top-level key is recorded once; a later line with the same key is
/// reported and does not overwrite it. (`map-kuid` and `map_kuid` are two keys
/// that fill one field, so the later of them does overwrite the earlier.)
pub proof fn law_first_value_kept(input: Seq<char>, i: nat, key: Seq<char>)
    requires
        i <= lines(input).len(),
        scan_lines(lines(input), i).seen.contains(key),
        !shares_field(key),
    ensures
        field_of(trainz_parse(input).0, key) == field_of(scan_lines(lines(input), i).config, key),
{
    lemma_seen_key_kept(lines(input), i, lines(input).len(), key);
}

/// Every unknown key has a diagnostic that reports it as preserved but unmapped.
pub open spec fn unknown_keys_reported(st: ScanState) -> bool {
    forall|k: Seq<char>|
        #[trigger] st.config.unknown_keys.contains_key(k) ==> exists|j: int|
            0 <= j < st.diagnostics.len() && #[trigger] st.diagnostics[j] == DiagnosticModel {
                line: st.diagnostics[j].line,
                key: Some(k),
                message: msg_preserved(),
            }
}

proof fn lemma_reported_kept(a: ScanState, b: ScanState, n: nat)
    requires
        unknown_keys_reported(a),
        extends_at(a.diagnostics, b.diagnostics, n),
        b.config.unknown_keys == a.config.unknown_keys,
    ensures
        unknown_keys_reported(b),
{
    assert forall|k: Seq<char>| #[trigger] b.config.unknown_keys.contains_key(k) implies exists|j: int|
        0 <= j < b.diagnostics.len() && #[trigger] b.diagnostics[j] == DiagnosticModel {
            line: b.diagnostics[j].line,
            key: Some(k),
            message: msg_preserved(),
        } by {
        let j = choose|j: int|
            0 <= j < a.diagnostics.len() && #[trigger] a.diagnostics[j] == DiagnosticModel {
                line: a.diagnostics[j].line,
                key: Some(k),
                message: msg_preserved(),
            };
        assert(b.diagnostics[j] == b.diagnostics.take(a.diagnostics.len() as int)[j]);
    }
}

proof fn lemma_key_value_reported(st: ScanState, n: nat, k: Seq<char>, v: Seq<char>)
    requires
        unknown_keys_reported(st),
    ensures
        unknown_keys_reported(scan_key_value(st, n, k, v)),
{
    lemma_key_value_extends(st, n, k, v);
    let r = scan_key_value(st, n, k, v);
    let raw_key = trim(k);
    let key = lower_seq(raw_key);
    let st1 = if has_upper(raw_key) { with_diagnostic(st, n, Some(key), msg_uppercase()) } else { st };
    if st1.seen.contains(key) || key == "kind"@ || key == "username"@ || key == "kuid"@ || key == "trainz-build"@ || key == "map-kuid"@ || key == "map_kuid"@ {
        lemma_reported_kept(st, r, n);
    } else {
        let last = r.diagnostics.len() - 1;
        assert(r.diagnostics[last] == DiagnosticModel { line: n, key: Some(key), message: msg_preserved() });
        assert forall|q: Seq<char>| #[trigger] r.config.unknown_keys.contains_key(q) implies exists|j: int|
            0 <= j < r.diagnostics.len() && #[trigger] r.diagnostics[j] == DiagnosticModel {
                line: r.diagnostics[j].line,
                key: Some(q),
                message: msg_preserved(),
            } by {
            if q == key {
                assert(r.diagnostics[last] == DiagnosticModel { line: r.diagnostics[last].line, key: Some(q), message: msg_preserved() });
            } else {
                assert(st.config.unknown_keys.contains_key(q));
                let j = choose|j: int|
                    0 <= j < st.diagnostics.len() && #[trigger] st.diagnostics[j] == DiagnosticModel {
                        line: st.diagnostics[j].line,
                        key: Some(q),
                        message: msg_preserved(),
                    };
                assert(r.diagnostics[j] == r.diagnostics.take(st.diagnostics.len() as int)[j]);
            }
        }
    }
}

/// Law: every key kept as unknown metadata is also reported as not mapped, so no
/// field is carried over silently.
pub proof fn law_unknown_keys_reported(ls: Seq<Seq<char>>, k: nat)
    requires
        k <= ls.len(),
    ensures
        unknown_keys_reported(scan_lines(ls, k)),
    decreases k,
{
    if k > 0 {
        law_unknown_keys_reported(ls, (k - 1) as nat);
        let st = scan_lines(ls, (k - 1) as nat);
        let i = k - 1;
        lemma_line_extends(ls, i, st);
        let line = trim(ls[i]);
        if line.len() == 0 || looks_like_comment(line) || line == "}"@ || ends_with(line, "{"@) || st.depth > 0 {
            lemma_reported_kept(st, scan_lines(ls, k), k);
        } else {
            match split_key_value(line) {
                None => {
                    lemma_reported_kept(st, scan_lines(ls, k), k);
                },
                Some(kv) => {
                    lemma_key_value_reported(st, k, kv.0, kv.1);
                },
            }
        }
    }
}

/// Law: a key/value line whose key is new records its (trimmed, unquoted) value
/// under that key.
pub proof fn law_fresh_key_recorded(st: ScanState, n: nat, k: Seq<char>, v: Seq<char>)
    requires
        !st.seen.contains(lower_seq(trim(k))),
    ensures
        field_of(scan_key_value(st, n, k, v).config, lower_seq(trim(k))) == Some(unquote(trim(v))),
        scan_key_value(st, n, k, v).seen.contains(lower_seq(trim(k))),
{
}

fn is_comment_line(line: &[char]) -> (r: bool)
    ensures
        r == looks_like_comment(line@),
{
    if has_prefix(line, &chars_of("//")) || has_prefix(line, &chars_of("#")) || has_prefix(
        line,
        &chars_of(";"),
    ) || eq_ignore_ascii_case(line, &chars_of("rem")) {
        return true;
    }
    if line.len() >= 4 {
        let head = slice_range(line, 0, 4);
        assert(head@ == line@.take(4));
        eq_ignore_ascii_case(&head, &chars_of("rem "))
    } else {
        false
    }
}

fn key_value(line: &[char]) -> (r: Option<(Vec<char>, Vec<char>)>)
    ensures
        match r {
            Some(kv) => split_key_value(line@) == Some((kv.0@, kv.1@)),
            None => split_key_value(line@) is None,
        },
{
    let mut w: usize = 0;
    while w < line.len() && !is_whitespace(line[w])
        invariant
            w <= line.len(),
            first_ws(line@, 0) == first_ws(line@, w as int),
        decreases line.len() - w,
    {
        w += 1;
    }
    if w >= line.len() {
        None
    } else {
        let key = slice_range(line, 0, w);
        let rest = slice_range(line, w + 1, line.len());
        assert(key@ == line@.take(w as int));
        assert(rest@ == line@.skip(w + 1));
        Some((key, trimmed(&rest)))
    }
}

fn unquoted(v: &[char]) -> (r: Vec<char>)
    ensures
        r@ == unquote(v@),
{
    if v.len() >= 2 && v[0] == '"' && v[v.len() - 1] == '"' {
        slice_range(v, 1, v.len() - 1)
    } else {
        slice_range(v, 0, v.len())
    }
}

fn any_upper(s: &[char]) -> (r: bool)
    ensures
        r == has_upper(s@),
{
    let mut i: usize = 0;
    while i < s.len()
        invariant
            i <= s.len(),
            forall|j: int| 0 <= j < i ==> !is_upper(#[trigger] s@[j]),
        decreases s.len() - i,
    {
        if 'A' <= s[i] && s[i] <= 'Z' {
            return true;
        }
        i += 1;
    }
    false
}

fn next_opens_container(lines: &Vec<Vec<char>>, j: usize) -> (r: bool)
    ensures
        r == opens_container(views(lines@), j as int),
{
    let mut k = j;
    while k < lines.len()
        invariant
            j <= k,
            opens_container(views(lines@), j as int) == opens_container(views(lines@), k as int),
        decreases lines.len() - k,
    {
        let t = trimmed(&lines[k]);
        assert(views(lines@)[k as int] == lines@[k as int]@);
        if t.len() != 0 {
            return slice_eq(&t, &chars_of("{"));
        }
        k += 1;
    }
    false
}

fn owned(s: &str) -> (r: String)
    ensures
        r@ == s@,
{
    s.to_owned()
}

spec fn seen_matches(seen: Seq<Vec<char>>, s: Set<Seq<char>>) -> bool {
    forall|k: Seq<char>| s.contains(k) <==> exists|i: int| 0 <= i < seen.len() && #[trigger] seen[i]@ == k
}

/// The scan in progress: container depth, keys seen at the top level, and output.
struct Scan {
    depth: usize,
    seen: Vec<Vec<char>>,
    out: TrainzConfigParse,
}

impl Scan {
    spec fn models(&self, st: ScanState) -> bool {
        &&& self.depth == st.depth
        &&& seen_matches(self.seen@, st.seen)
        &&& self.out.config.view() == st.config
        &&& diagnostics_view(self.out.diagnostics@) == st.diagnostics
    }

    fn diagnose(&mut self, line: usize, key: Option<String>, message: &str)
        ensures
            final(self).depth == old(self).depth,
            final(self).seen == old(self).seen,
            final(self).out.config == old(self).out.config,
            diagnostics_view(final(self).out.diagnostics@) == diagnostics_view(old(self).out.diagnostics@).push(
                DiagnosticModel { line: line as nat, key: opt_view(key), message: message@ },
            ),
    {
        let d = TrainzConfigDiagnostic { line, key, message: owned(message) };
        self.out.diagnostics.push(d);
        assert(diagnostics_view(self.out.diagnostics@) =~= diagnostics_view(old(self).out.diagnostics@).push(
            DiagnosticModel { line: line as nat, key: opt_view(key), message: message@ },
        ));
    }

    fn has_seen(&self, key: &[char]) -> (r: bool)
        ensures
            r == exists|i: int| 0 <= i < self.seen@.len() && #[trigger] self.seen@[i]@ == key@,
    {
        let mut i: usize = 0;
        while i < self.seen.len()
            invariant
                i <= self.seen@.len(),
                forall|j: int| 0 <= j < i ==> #[trigger] self.seen@[j]@ != key@,
            decreases self.seen@.len() - i,
        {
            if slice_eq(&self.seen[i], key) {
                return true;
            }
            i += 1;
        }
        false
    }

    fn key_value_line(&mut self, n: usize, raw_key0: &[char], raw_value: &[char], Ghost(st): Ghost<ScanState>)
        requires
            old(self).models(st),
        ensures
            final(self).models(scan_key_value(st, n as nat, raw_key0@, raw_value@)),
    {
        let raw_key = trimmed(raw_key0);
        let key = lowercase(&raw_key);
        let ghost st1 = if has_upper(raw_key@) {
            with_diagnostic(st, n as nat, Some(key@), msg_uppercase())
        } else {
            st
        };
        if any_upper(&raw_key) {
            self.diagnose(n, Some(string_of(&key)), "uppercase ASCII is not valid in an ACS Text Format key");
        }
        assert(self.models(st1));
        if self.has_seen(&key) {
            self.diagnose(n, Some(string_of(&key)), "duplicate Trainz metadata key in the same scope");
            assert(st1.seen.contains(key@));
            return;
        }
        let ghost old_seen = self.seen@;
        self.seen.push(slice_range(&key, 0, key.len()));
        let ghost st2 = ScanState {
            depth: st1.depth,
            seen: st1.seen.insert(key@),
            config: st1.config,
            diagnostics: st1.diagnostics,
        };
        assert(self.models(st2)) by {
            assert forall|k: Seq<char>| st2.seen.contains(k) implies exists|i: int| 0 <= i < self.seen@.len() && #[trigger] self.seen@[i]@ == k by {
                if k == key@ {
                    assert(self.seen@[old_seen.len() as int]@ == k);
                } else {
                    assert(st1.seen.contains(k));
                    let i = choose|i: int| 0 <= i < old_seen.len() && #[trigger] old_seen[i]@ == k;
                    assert(self.seen@[i]@ == k);
                }
            }
            assert forall|k: Seq<char>| (exists|i: int| 0 <= i < self.seen@.len() && #[trigger] self.seen@[i]@ == k) implies st2.seen.contains(k) by {
                let i = choose|i: int| 0 <= i < self.seen@.len() && #[trigger] self.seen@[i]@ == k;
                if i < old_seen.len() {
                    assert(old_seen[i]@ == k);
                    assert(st1.seen.contains(k));
                } else {
                    assert(k == key@);
                }
            }
        }
        let value = unquoted(&trimmed(raw_value));
        let ghost st3 = if value@.len() == 0 {
            with_diagnostic(st2, n as nat, Some(key@), msg_empty())
        } else {
            st2
        };
        if value.len() == 0 {
            self.diagnose(n, Some(string_of(&key)), "empty Trainz metadata value");
        }
        assert(self.models(st3));
        assert(scan_key_value(st, n as nat, raw_key0@, raw_value@) == assign(st3, n as nat, key@, value@));
        if slice_eq(&key, &chars_of("kind")) {
            self.out.config.kind = Some(string_of(&value));
            assert(self.out.config.view() == TrainzConfigModel { kind: Some(value@), ..st3.config });
            assert(key@ == "kind"@);
            assert(assign(st3, n as nat, key@, value@) == with_config(st3, TrainzConfigModel { kind: Some(value@), ..st3.config }));
            assert(self.depth == st3.depth);
            assert(diagnostics_view(self.out.diagnostics@) == st3.diagnostics);
            assert(self.models(assign(st3, n as nat, key@, value@)));
        } else if slice_eq(&key, &chars_of("username")) {
            self.out.config.username = Some(string_of(&value));
        } else if slice_eq(&key, &chars_of("kuid")) {
            self.out.config.kuid = Some(string_of(&value));
        } else if slice_eq(&key, &chars_of("trainz-build")) {
            self.out.config.trainz_build = Some(string_of(&value));
        } else if slice_eq(&key, &chars_of("map-kuid")) || slice_eq(&key, &chars_of("map_kuid")) {
            self.out.config.map_kuid = Some(string_of(&value));
        } else {
            let ghost m0 = self.out.config.unknown_keys.view();
            let ghost c0 = self.out.config.view();
            let ghost d0 = diagnostics_view(self.out.diagnostics@);
            let v = string_of(&value);
            self.out.config.unknown_keys.insert(string_of(&key), v);
            assert(self.out.config.unknown_keys.view().map_values(|s: String| s@) =~= m0.map_values(
                |s: String| s@,
            ).insert(key@, value@));
            assert(self.out.config.view() == TrainzConfigModel { unknown_keys: c0.unknown_keys.insert(key@, value@), ..c0 });
            assert(c0 == st3.config);
            assert(diagnostics_view(self.out.diagnostics@) == d0);
            self.diagnose(n, Some(string_of(&key)), "Trainz metadata key is preserved but not mapped by the native adapter yet");
            assert(self.models(assign(st3, n as nat, key@, value@)));
        }
        assert(self.models(assign(st3, n as nat, key@, value@)));
    }

    fn line(&mut self, lines: &Vec<Vec<char>>, index: usize, Ghost(st): Ghost<ScanState>)
        requires
            old(self).models(st),
            index < lines.len(),
            old(self).depth <= index,
        ensures
            final(self).models(scan_line(views(lines@), index as int, st)),
            final(self).depth <= index + 1,
    {
        let n = index + 1;
        let line = trimmed(&lines[index]);
        assert(views(lines@)[index as int] == lines@[index as int]@);
        if line.len() == 0 {
        } else if is_comment_line(&line) {
            self.diagnose(n, None, "Trainz config does not support comment lines");
        } else if slice_eq(&line, &chars_of("}")) {
            if self.depth == 0 {
                self.diagnose(n, None, "unmatched Trainz container closing brace");
            } else {
                self.depth -= 1;
            }
        } else if has_suffix(&line, &chars_of("{")) {
            self.depth += 1;
        } else if self.depth > 0 {
        } else {
            match key_value(&line) {
                None => {
                    if !next_opens_container(lines, index + 1) {
                        self.diagnose(n, None, "unsupported Trainz config line; expected key/value metadata");
                    }
                },
                Some(kv) => {
                    self.key_value_line(n, &kv.0, &kv.1, Ghost(st));
                },
            }
        }
    }
}

/// Parses the top-level metadata of a Trainz `config.txt`.
///
/// Nested containers are accepted without being mapped; every line that cannot be
/// represented (comment-like lines, malformed lines, duplicate keys, uppercase keys,
/// empty values, unmapped keys, unbalanced braces) yields a diagnostic instead of
/// disappearing.
pub fn parse_trainz_config(input: &str) -> (r: TrainzConfigParse)
    ensures
        (r.config.view(), diagnostics_view(r.diagnostics@)) == trainz_parse(input@),
{
    let text = chars_of(input);
    let lines = split_lines(&text);
    let mut scan = Scan {
        depth: 0,
        seen: Vec::new(),
        out: TrainzConfigParse {
            config: TrainzConfig {
                kind: None,
                username: None,
                kuid: None,
                trainz_build: None,
                map_kuid: None,
                unknown_keys: KeyMap::new(),
            },
            diagnostics: Vec::new(),
        },
    };
    assert(scan.out.config.unknown_keys.view().map_values(|s: String| s@) =~= Map::<Seq<char>, Seq<char>>::empty());
    assert(diagnostics_view(scan.out.diagnostics@) =~= Seq::<DiagnosticModel>::empty());
    assert(scan.models(initial_state()));
    let mut index: usize = 0;
    while index < lines.len()
        invariant
            index <= lines@.len(),
            scan.depth <= index,
            scan.models(scan_lines(views(lines@), index as nat)),
        decreases lines@.len() - index,
    {
        scan.line(&lines, index, Ghost(scan_lines(views(lines@), index as nat)));
        index += 1;
    }
    if scan.depth > 0 {
        let at = if lines.len() == 0 { 1 } else { lines.len() };
        scan.diagnose(at, None, "unterminated Trainz metadata container");
    }
    scan.out
}

} // verus!
