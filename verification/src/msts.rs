//! The integer and text rules of MSTS track databases, section files and
//! vehicle files: pins, section keys, includes, blocks and quantities.
use vstd::prelude::*;

use crate::compose::resolved_path;
use crate::model::{opt_str, Provenance, ProvenanceView};
use crate::stf::{
    block, find_block, i32_text, lemma_block_from, lemma_matching, matching, matching_paren,
    parse_i32, parse_u32, parse_usize, token_views, u32_text, usize_text,
};
use crate::text::{
    chars_of, contains, debug_quoted, debug_text, eq_ignore_ascii_case, eq_ignore_case, fields,
    has_substring, lower_seq, lowercase, next_sep, push_str, slice_eq, slice_range, split_on,
    string_of, trim, trimmed, views,
};

verus! {

/// A `TrPin ( link direction )` of a track-database node.
#[derive(Clone, Copy, PartialEq, Eq, Structural, Debug)]
pub struct TdbPin {
    pub link: u32,
    pub direction: i32,
}

/// The token at `i`, if there is one.
pub open spec fn token_at(t: Seq<Seq<char>>, i: int) -> Option<Seq<char>> {
    if 0 <= i < t.len() {
        Some(t[i])
    } else {
        None
    }
}

/// The positions of the `TrPin (` headers from `cursor` up to `close`; the
/// scan jumps over each pin's block.
pub open spec fn pin_starts(t: Seq<Seq<char>>, close: int, cursor: int) -> Seq<int>
    decreases t.len() - cursor,
{
    if cursor < 0 || cursor >= close || cursor >= t.len() {
        Seq::empty()
    } else if eq_ignore_case(t[cursor], "trpin"@) && token_at(t, cursor + 1) == Some("("@) {
        match matching(t, cursor + 1) {
            Some(end) => {
                proof {
                    lemma_matching(t, cursor + 1);
                }
                seq![cursor] + pin_starts(t, close, end + 1)
            },
            None => seq![cursor] + pin_starts(t, close, cursor + 1),
        }
    } else {
        pin_starts(t, close, cursor + 1)
    }
}

/// The pin headers inside the first `TrPins` block, after its two counts.
pub open spec fn pin_positions(t: Seq<Seq<char>>) -> Seq<int> {
    match block(t, "trpins"@) {
        Some((o, c)) => pin_starts(t, c, o + 3),
        None => Seq::empty(),
    }
}

pub open spec fn opt_u32(o: Option<Seq<char>>) -> Option<u32> {
    match o {
        Some(s) => u32_text(s),
        None => None,
    }
}

pub open spec fn opt_i32(o: Option<Seq<char>>) -> Option<i32> {
    match o {
        Some(s) => i32_text(s),
        None => None,
    }
}

/// The pins whose link and direction both read as integers.
pub open spec fn tdb_pins_at(t: Seq<Seq<char>>, ps: Seq<int>) -> Seq<TdbPin>
    decreases ps.len(),
{
    if ps.len() == 0 {
        Seq::empty()
    } else {
        let rest = tdb_pins_at(t, ps.drop_last());
        let p = ps.last();
        match (opt_u32(token_at(t, p + 2)), opt_i32(token_at(t, p + 3))) {
            (Some(link), Some(direction)) => rest.push(TdbPin { link, direction }),
            _ => rest,
        }
    }
}

/// The links of the pins whose link reads as an integer.
pub open spec fn pin_links_at(t: Seq<Seq<char>>, ps: Seq<int>) -> Seq<u32>
    decreases ps.len(),
{
    if ps.len() == 0 {
        Seq::empty()
    } else {
        let rest = pin_links_at(t, ps.drop_last());
        match opt_u32(token_at(t, ps.last() + 2)) {
            Some(link) => rest.push(link),
            None => rest,
        }
    }
}

fn opens(tokens: &[Vec<char>], i: usize) -> (r: bool)
    ensures
        r == (token_at(token_views(tokens@), i as int) == Some("("@)),
{
    proof {
        reveal_strlit("(");
    }
    if i >= tokens.len() {
        return false;
    }
    let r = tokens[i].len() == 1 && tokens[i][0] == '(';
    if r {
        assert(tokens@[i as int]@ =~= "("@);
    }
    r
}

/// The positions of the pin headers of a track-database node.
fn pin_header_positions(tokens: &[Vec<char>]) -> (r: Vec<usize>)
    ensures
        r@.map_values(|p: usize| p as int) == pin_positions(token_views(tokens@)),
{
    let ghost t = token_views(tokens@);
    let name = chars_of("trpins");
    let (open, close) = match find_block(tokens, &name) {
        Some(b) => b,
        None => {
            let r: Vec<usize> = Vec::new();
            assert(r@.map_values(|p: usize| p as int) =~= Seq::<int>::empty());
            return r;
        },
    };
    proof {
        lemma_block_from(t, name@, 0);
    }
    let pin = chars_of("trpin");
    let mut out: Vec<usize> = Vec::new();
    if close - open <= 3 {
        assert(out@.map_values(|p: usize| p as int) =~= pin_starts(t, close as int, open + 3));
        return out;
    }
    let mut cursor = open + 3;
    assert(out@.map_values(|p: usize| p as int) + pin_starts(t, close as int, cursor as int)
        =~= pin_starts(t, close as int, open + 3));
    while cursor < close
        invariant
            t == token_views(tokens@),
            close < tokens@.len(),
            pin@ == "trpin"@,
            out@.map_values(|p: usize| p as int) + pin_starts(t, close as int, cursor as int)
                == pin_starts(t, close as int, open + 3),
        decreases tokens.len() - cursor,
    {
        let ghost before = out@.map_values(|p: usize| p as int);
        assert(t[cursor as int] == tokens@[cursor as int]@);
        if eq_ignore_ascii_case(&tokens[cursor], &pin) && opens(tokens, cursor + 1) {
            out.push(cursor);
            assert(out@.map_values(|p: usize| p as int) =~= before.push(cursor as int));
            proof {
                lemma_matching(t, cursor + 1);
            }
            match matching_paren(tokens, cursor + 1) {
                Some(end) => {
                    assert(before + pin_starts(t, close as int, cursor as int) =~= before.push(
                        cursor as int,
                    ) + pin_starts(t, close as int, end + 1));
                    cursor = end + 1;
                },
                None => {
                    assert(before + pin_starts(t, close as int, cursor as int) =~= before.push(
                        cursor as int,
                    ) + pin_starts(t, close as int, cursor + 1));
                    cursor += 1;
                },
            }
        } else {
            cursor += 1;
        }
    }
    assert(out@.map_values(|p: usize| p as int) + pin_starts(t, close as int, cursor as int)
        =~= out@.map_values(|p: usize| p as int));
    out
}

fn token_u32(tokens: &[Vec<char>], i: usize) -> (r: Option<u32>)
    ensures
        r == opt_u32(token_at(token_views(tokens@), i as int)),
{
    if i < tokens.len() {
        parse_u32(&tokens[i])
    } else {
        None
    }
}

fn token_i32(tokens: &[Vec<char>], i: usize) -> (r: Option<i32>)
    ensures
        r == opt_i32(token_at(token_views(tokens@), i as int)),
{
    if i < tokens.len() {
        parse_i32(&tokens[i])
    } else {
        None
    }
}

/// The pins of a track-database node whose link and direction read as integers.
pub fn parse_tdb_pins(tokens: &[Vec<char>]) -> (r: Vec<TdbPin>)
    ensures
        r@ == tdb_pins_at(token_views(tokens@), pin_positions(token_views(tokens@))),
{
    let ghost t = token_views(tokens@);
    let positions = pin_header_positions(tokens);
    let ghost ps = positions@.map_values(|p: usize| p as int);
    let mut pins: Vec<TdbPin> = Vec::new();
    let mut k: usize = 0;
    assert(ps.take(0) =~= Seq::<int>::empty());
    while k < positions.len()
        invariant
            k <= positions@.len(),
            t == token_views(tokens@),
            ps == positions@.map_values(|p: usize| p as int),
            pins@ == tdb_pins_at(t, ps.take(k as int)),
        decreases positions.len() - k,
    {
        let p = positions[k];
        assert(ps[k as int] == p as int);
        let n = tokens.len();
        assert(tokens@.len() <= usize::MAX);
        assert(ps.take(k + 1).drop_last() =~= ps.take(k as int));
        let link = if p < usize::MAX - 2 {
            token_u32(tokens, p + 2)
        } else {
            None
        };
        let direction = if p < usize::MAX - 3 {
            token_i32(tokens, p + 3)
        } else {
            None
        };
        match (link, direction) {
            (Some(link), Some(direction)) => {
                pins.push(TdbPin { link, direction });
            },
            _ => {},
        }
        k += 1;
    }
    assert(ps.take(k as int) =~= ps);
    pins
}

/// The links of a track-database node's pins, where they read as integers.
pub fn parse_pins(tokens: &[Vec<char>]) -> (r: Vec<u32>)
    ensures
        r@ == pin_links_at(token_views(tokens@), pin_positions(token_views(tokens@))),
{
    let ghost t = token_views(tokens@);
    let positions = pin_header_positions(tokens);
    let ghost ps = positions@.map_values(|p: usize| p as int);
    let mut links: Vec<u32> = Vec::new();
    let mut k: usize = 0;
    assert(ps.take(0) =~= Seq::<int>::empty());
    while k < positions.len()
        invariant
            k <= positions@.len(),
            t == token_views(tokens@),
            ps == positions@.map_values(|p: usize| p as int),
            links@ == pin_links_at(t, ps.take(k as int)),
        decreases positions.len() - k,
    {
        let p = positions[k];
        assert(ps[k as int] == p as int);
        let n = tokens.len();
        assert(tokens@.len() <= usize::MAX);
        assert(ps.take(k + 1).drop_last() =~= ps.take(k as int));
        let link = if p < usize::MAX - 2 {
            token_u32(tokens, p + 2)
        } else {
            None
        };
        match link {
            Some(link) => {
                links.push(link);
            },
            None => {},
        }
        k += 1;
    }
    assert(ps.take(k as int) =~= ps);
    links
}

/// The node and section of a source id `TrackNode:<node>:TrVectorSection:<section>[:...]`.
pub open spec fn source_key(id: Seq<char>) -> Option<(u32, usize)> {
    let f = fields(id, ':');
    if f.len() >= 4 && f[0] == "TrackNode"@ && f[2] == "TrVectorSection"@ {
        match (u32_text(f[1]), usize_text(f[3])) {
            (Some(node), Some(section)) => Some((node, section)),
            _ => None,
        }
    } else {
        None
    }
}

pub fn parse_source_key(source_id: &str) -> (r: Option<(u32, usize)>)
    ensures
        r == source_key(source_id@),
{
    let s = chars_of(source_id);
    let f = split_on(&s, ':');
    assert(views(f@)[0] == f@[0]@);
    if f.len() < 4 {
        return None;
    }
    assert(views(f@)[1] == f@[1]@);
    assert(views(f@)[2] == f@[2]@);
    assert(views(f@)[3] == f@[3]@);
    if !slice_eq(&f[0], &chars_of("TrackNode")) || !slice_eq(&f[2], &chars_of("TrVectorSection")) {
        return None;
    }
    match (parse_u32(&f[1]), parse_usize(&f[3])) {
        (Some(node), Some(section)) => Some((node, section)),
        _ => None,
    }
}

/// A provenance with `:geometry=<state>` appended to its source id, unless it
/// has no source id or already says its geometry.
pub open spec fn geometry_marked(p: ProvenanceView, state: Seq<char>) -> ProvenanceView {
    match p.source_id {
        Some(id) => if contains(id, ":geometry="@) {
            p
        } else {
            ProvenanceView { source_id: Some(id + ":geometry="@ + state), ..p }
        },
        None => p,
    }
}

pub fn mark_geometry(provenance: &mut Provenance, state: &str)
    ensures
        final(provenance).view() == geometry_marked(old(provenance).view(), state@),
{
    let marked = match &provenance.source_id {
        Some(id) => {
            let text = chars_of(id.as_str());
            if has_substring(&text, &chars_of(":geometry=")) {
                None
            } else {
                let mut v = text;
                push_str(&mut v, ":geometry=");
                push_str(&mut v, state);
                Some(string_of(&v))
            }
        },
        None => None,
    };
    match marked {
        Some(m) => {
            provenance.source_id = Some(m);
        },
        None => {},
    }
}

/// The paths named by `include ( path )` blocks, from token `i` on.
pub open spec fn includes_from(t: Seq<Seq<char>>, i: int) -> Seq<Seq<char>>
    decreases t.len() - i,
{
    if i < 0 || i + 2 >= t.len() {
        Seq::empty()
    } else if eq_ignore_case(t[i], "include"@) && t[i + 1] == "("@ {
        seq![t[i + 2]] + includes_from(t, i + 1)
    } else {
        includes_from(t, i + 1)
    }
}

/// The files a section file includes, in order.
pub fn include_paths(tokens: &[Vec<char>]) -> (r: Vec<String>)
    ensures
        r@.map_values(|s: String| s@) == includes_from(token_views(tokens@), 0),
{
    let ghost t = token_views(tokens@);
    let keyword = chars_of("include");
    let mut paths: Vec<String> = Vec::new();
    let mut index: usize = 0;
    assert(paths@.map_values(|s: String| s@) + includes_from(t, 0) =~= includes_from(t, 0));
    while index < tokens.len() && tokens.len() - index > 2
        invariant
            t == token_views(tokens@),
            keyword@ == "include"@,
            paths@.map_values(|s: String| s@) + includes_from(t, index as int) == includes_from(t, 0),
        decreases tokens.len() - index,
    {
        let ghost before = paths@.map_values(|s: String| s@);
        assert(t[index as int] == tokens@[index as int]@);
        if eq_ignore_ascii_case(&tokens[index], &keyword) && opens(tokens, index + 1) {
            let p = string_of(tokens[index + 2].as_slice());
            paths.push(p);
            assert(paths@.map_values(|s: String| s@) =~= before.push(t[index + 2]));
            assert(before + includes_from(t, index as int) =~= before.push(t[index + 2])
                + includes_from(t, index + 1));
        }
        index += 1;
    }
    assert(includes_from(t, index as int) =~= Seq::<Seq<char>>::empty());
    assert(paths@.map_values(|s: String| s@) + Seq::<Seq<char>>::empty() =~= paths@.map_values(
        |s: String| s@,
    ));
    paths
}

/// An include path with `\` turned into `/`, resolved against the including file's folder.
pub open spec fn include_target(base: Seq<char>, raw: Seq<char>) -> Seq<char> {
    resolved_path(base, raw.map_values(|c: char| if c == '\\' { '/' } else { c }))
}

pub fn normalized_include(base: &str, raw: &str) -> (r: String)
    ensures
        r@ == include_target(base@, raw@),
{
    let s = chars_of(raw);
    let mut portable: Vec<char> = Vec::new();
    let mut i: usize = 0;
    while i < s.len()
        invariant
            i <= s@.len(),
            s@ == raw@,
            portable@ == s@.take(i as int).map_values(|c: char| if c == '\\' { '/' } else { c }),
        decreases s.len() - i,
    {
        portable.push(
            if s[i] == '\\' {
                '/'
            } else {
                s[i]
            },
        );
        assert(portable@ =~= s@.take(i + 1).map_values(|c: char| if c == '\\' { '/' } else { c }));
        i += 1;
    }
    assert(s@.take(s@.len() as int) =~= s@);
    let p = string_of(&portable);
    crate::compose::resolve(base, p.as_str())
}

/// The tokens inside the first block named `name`.
pub open spec fn block_inner(t: Seq<Seq<char>>, name: Seq<char>) -> Option<Seq<Seq<char>>> {
    match block(t, name) {
        Some((o, c)) => Some(t.subrange(o + 1, c)),
        None => None,
    }
}

pub fn block_values(tokens: &[Vec<char>], name: &str) -> (r: Option<Vec<Vec<char>>>)
    ensures
        match r {
            Some(v) => block_inner(token_views(tokens@), name@) == Some(token_views(v@)),
            None => block_inner(token_views(tokens@), name@) is None,
        },
{
    let ghost t = token_views(tokens@);
    let n = chars_of(name);
    match find_block(tokens, &n) {
        Some((open, close)) => {
            proof {
                lemma_block_from(t, n@, 0);
            }
            let mut v: Vec<Vec<char>> = Vec::new();
            let mut k = open + 1;
            while k < close
                invariant
                    open < close < tokens@.len(),
                    open + 1 <= k <= close,
                    t == token_views(tokens@),
                    token_views(v@) == t.subrange(open + 1, k as int),
                decreases close - k,
            {
                let c = slice_range(tokens[k].as_slice(), 0, tokens[k].len());
                assert(c@ =~= tokens@[k as int]@);
                let ghost before = v@;
                v.push(c);
                assert(token_views(v@) =~= token_views(before).push(c@));
                assert(t.subrange(open + 1, k + 1) =~= t.subrange(open + 1, k as int).push(t[k as int]));
                k += 1;
            }
            Some(v)
        },
        None => None,
    }
}

/// The first token inside the first block named `name`.
pub open spec fn first_inner(t: Seq<Seq<char>>, name: Seq<char>) -> Option<Seq<char>> {
    match block_inner(t, name) {
        Some(v) => if v.len() > 0 {
            Some(v[0])
        } else {
            None
        },
        None => None,
    }
}

pub fn first_value(tokens: &[Vec<char>], name: &str) -> (r: Option<Vec<char>>)
    ensures
        match r {
            Some(v) => first_inner(token_views(tokens@), name@) == Some(v@),
            None => first_inner(token_views(tokens@), name@) is None,
        },
{
    match block_values(tokens, name) {
        Some(v) => {
            if v.len() > 0 {
                assert(token_views(v@)[0] == v@[0]@);
                Some(slice_range(v[0].as_slice(), 0, v[0].len()))
            } else {
                None
            }
        },
        None => None,
    }
}

/// The part of a quantity before any `#` comment, trimmed.
pub open spec fn quantity_core(raw: Seq<char>) -> Seq<char> {
    trim(raw.take(next_sep(raw, '#', 0)))
}

pub open spec fn sign_or_mark(c: char) -> bool {
    c == '+' || c == '-' || c == '.' || c == ','
}

/// Where the leading number of `s` ends, scanning from `i`, and whether it
/// held a digit: digits, signs, `.`, `,`, and (after a digit) `e`/`E` with an
/// optional sign.
pub open spec fn number_scan(s: Seq<char>, i: int, saw_digit: bool) -> (int, bool)
    decreases s.len() - i,
{
    if i < 0 || i >= s.len() {
        (i, saw_digit)
    } else if '0' <= s[i] <= '9' {
        number_scan(s, i + 1, true)
    } else if sign_or_mark(s[i]) {
        number_scan(s, i + 1, saw_digit)
    } else if (s[i] == 'e' || s[i] == 'E') && saw_digit {
        if i + 1 < s.len() && (s[i + 1] == '+' || s[i + 1] == '-') {
            number_scan(s, i + 2, saw_digit)
        } else {
            number_scan(s, i + 1, saw_digit)
        }
    } else {
        (i, saw_digit)
    }
}

/// A quantity split into its number (with `,` read as `.`), its lowercased
/// unit suffix, and the trimmed text they came from.
#[derive(Debug)]
pub struct QuantityText {
    pub number: String,
    pub suffix: String,
    pub raw: String,
}

/// How a quantity's text splits, or why it does not.
pub open spec fn quantity_text(raw: Seq<char>) -> Result<(Seq<char>, Seq<char>, Seq<char>), Seq<char>> {
    let r = quantity_core(raw);
    if r.len() == 0 {
        Err("empty quantity"@)
    } else {
        let (end, saw) = number_scan(r, 0, false);
        if !saw || end == 0 {
            Err("invalid numeric value "@ + debug_text(r))
        } else {
            Ok(
                (
                    r.take(end).map_values(|c: char| if c == ',' { '.' } else { c }),
                    lower_seq(trim(r.skip(end))),
                    r,
                ),
            )
        }
    }
}

proof fn lemma_number_scan(s: Seq<char>, i: int, saw: bool)
    requires
        0 <= i <= s.len(),
    ensures
        i <= number_scan(s, i, saw).0 <= s.len(),
    decreases s.len() - i,
{
    if i < s.len() {
        if '0' <= s[i] <= '9' {
            lemma_number_scan(s, i + 1, true);
        } else if sign_or_mark(s[i]) {
            lemma_number_scan(s, i + 1, saw);
        } else if (s[i] == 'e' || s[i] == 'E') && saw {
            if i + 1 < s.len() && (s[i + 1] == '+' || s[i + 1] == '-') {
                lemma_number_scan(s, i + 2, saw);
            } else {
                lemma_number_scan(s, i + 1, saw);
            }
        }
    }
}

/// Splits a vehicle-file quantity such as `48t` or `120kN # note` into number and unit.
pub fn split_quantity(raw: &str) -> (r: Result<QuantityText, String>)
    ensures
        match r {
            Ok(q) => quantity_text(raw@) == Ok::<(Seq<char>, Seq<char>, Seq<char>), Seq<char>>(
                (q.number@, q.suffix@, q.raw@),
            ),
            Err(e) => quantity_text(raw@) == Err::<(Seq<char>, Seq<char>, Seq<char>), Seq<char>>(e@),
        },
{
    let all = chars_of(raw);
    let mut cut: usize = 0;
    while cut < all.len() && all[cut] != '#'
        invariant
            cut <= all@.len(),
            all@ == raw@,
            next_sep(all@, '#', 0) == next_sep(all@, '#', cut as int),
        decreases all.len() - cut,
    {
        cut += 1;
    }
    let head = slice_range(&all, 0, cut);
    assert(head@ =~= raw@.take(next_sep(raw@, '#', 0)));
    let r = trimmed(&head);
    if r.len() == 0 {
        return Err("empty quantity".to_owned());
    }
    let mut index: usize = 0;
    let mut saw_digit = false;
    while index < r.len()
        invariant
            index <= r@.len(),
            number_scan(r@, 0, false) == number_scan(r@, index as int, saw_digit),
        ensures
            number_scan(r@, 0, false) == (index as int, saw_digit),
        decreases r.len() - index,
    {
        let c = r[index];
        if '0' <= c && c <= '9' {
            saw_digit = true;
            index += 1;
        } else if c == '+' || c == '-' || c == '.' || c == ',' {
            index += 1;
        } else if (c == 'e' || c == 'E') && saw_digit {
            if index + 1 < r.len() && (r[index + 1] == '+' || r[index + 1] == '-') {
                index += 2;
            } else {
                index += 1;
            }
        } else {
            break;
        }
    }
    proof {
        lemma_number_scan(r@, 0, false);
    }
    let raw_text = string_of(&r);
    if !saw_digit || index == 0 {
        let mut m: Vec<char> = Vec::new();
        push_str(&mut m, "invalid numeric value ");
        push_str(&mut m, debug_quoted(raw_text.as_str()).as_str());
        return Err(string_of(&m));
    }
    let mut number: Vec<char> = Vec::new();
    let mut i: usize = 0;
    while i < index
        invariant
            i <= index <= r@.len(),
            number@ == r@.take(i as int).map_values(|c: char| if c == ',' { '.' } else { c }),
        decreases index - i,
    {
        number.push(
            if r[i] == ',' {
                '.'
            } else {
                r[i]
            },
        );
        assert(number@ =~= r@.take(i + 1).map_values(|c: char| if c == ',' { '.' } else { c }));
        i += 1;
    }
    assert(r@.take(i as int) =~= r@.take(index as int));
    let rest = slice_range(&r, index, r.len());
    assert(rest@ =~= r@.skip(index as int));
    let suffix = lowercase(&trimmed(&rest));
    Ok(QuantityText { number: string_of(&number), suffix: string_of(&suffix), raw: raw_text })
}

/// What a vehicle-file quantity measures.
#[derive(Clone, Copy, PartialEq, Eq, Structural, Debug)]
pub enum UnitKind {
    Mass,
    Distance,
    Force,
    Power,
    Speed,
}

/// The units that vehicle files are read in.
#[derive(Clone, Copy, PartialEq, Eq, Structural, Debug)]
pub enum Unit {
    Kilogram,
    Pound,
    Tonne,
    LongTon,
    ShortTon,
    Metre,
    Centimetre,
    Millimetre,
    Kilometre,
    Foot,
    Inch,
    HalfInch,
    Newton,
    Kilonewton,
    PoundForce,
    Watt,
    Kilowatt,
    Megawatt,
    Horsepower,
    MetresPerSecond,
    KilometresPerHour,
    MilesPerHour,
}

/// The unit a lowercased suffix names for a kind of quantity; no suffix means
/// the SI unit.
pub open spec fn unit_for(kind: UnitKind, s: Seq<char>) -> Option<Unit> {
    match kind {
        UnitKind::Mass => if s == ""@ || s == "kg"@ {
            Some(Unit::Kilogram)
        } else if s == "lb"@ {
            Some(Unit::Pound)
        } else if s == "t"@ {
            Some(Unit::Tonne)
        } else if s == "t-uk"@ {
            Some(Unit::LongTon)
        } else if s == "t-us"@ {
            Some(Unit::ShortTon)
        } else {
            None
        },
        UnitKind::Distance => if s == ""@ || s == "m"@ {
            Some(Unit::Metre)
        } else if s == "cm"@ {
            Some(Unit::Centimetre)
        } else if s == "mm"@ {
            Some(Unit::Millimetre)
        } else if s == "km"@ {
            Some(Unit::Kilometre)
        } else if s == "ft"@ {
            Some(Unit::Foot)
        } else if s == "in"@ {
            Some(Unit::Inch)
        } else if s == "in/2"@ {
            Some(Unit::HalfInch)
        } else {
            None
        },
        UnitKind::Force => if s == ""@ || s == "n"@ {
            Some(Unit::Newton)
        } else if s == "kn"@ {
            Some(Unit::Kilonewton)
        } else if s == "lbf"@ || s == "lb"@ {
            Some(Unit::PoundForce)
        } else {
            None
        },
        UnitKind::Power => if s == ""@ || s == "w"@ {
            Some(Unit::Watt)
        } else if s == "kw"@ {
            Some(Unit::Kilowatt)
        } else if s == "mw"@ {
            Some(Unit::Megawatt)
        } else if s == "hp"@ {
            Some(Unit::Horsepower)
        } else {
            None
        },
        UnitKind::Speed => if s == ""@ || s == "m/s"@ || s == "mps"@ {
            Some(Unit::MetresPerSecond)
        } else if s == "km/h"@ || s == "kmh"@ || s == "kph"@ {
            Some(Unit::KilometresPerHour)
        } else if s == "mph"@ {
            Some(Unit::MilesPerHour)
        } else {
            None
        },
    }
}

pub open spec fn kind_name(kind: UnitKind) -> Seq<char> {
    match kind {
        UnitKind::Mass => "mass"@,
        UnitKind::Distance => "distance"@,
        UnitKind::Force => "force"@,
        UnitKind::Power => "power"@,
        UnitKind::Speed => "speed"@,
    }
}

fn named(s: &Vec<char>, lit: &str) -> (r: bool)
    ensures
        r == (s@ == lit@),
{
    slice_eq(s, &chars_of(lit))
}

/// The quantity a unit measures.
pub open spec fn unit_dimension(u: Unit) -> UnitKind {
    match u {
        Unit::Kilogram => UnitKind::Mass,
        Unit::Pound => UnitKind::Mass,
        Unit::Tonne => UnitKind::Mass,
        Unit::LongTon => UnitKind::Mass,
        Unit::ShortTon => UnitKind::Mass,
        Unit::Metre => UnitKind::Distance,
        Unit::Centimetre => UnitKind::Distance,
        Unit::Millimetre => UnitKind::Distance,
        Unit::Kilometre => UnitKind::Distance,
        Unit::Foot => UnitKind::Distance,
        Unit::Inch => UnitKind::Distance,
        Unit::HalfInch => UnitKind::Distance,
        Unit::Newton => UnitKind::Force,
        Unit::Kilonewton => UnitKind::Force,
        Unit::PoundForce => UnitKind::Force,
        Unit::Watt => UnitKind::Power,
        Unit::Kilowatt => UnitKind::Power,
        Unit::Megawatt => UnitKind::Power,
        Unit::Horsepower => UnitKind::Power,
        Unit::MetresPerSecond => UnitKind::Speed,
        Unit::KilometresPerHour => UnitKind::Speed,
        Unit::MilesPerHour => UnitKind::Speed,
    }
}

/// A unit's size in the SI unit of its quantity (kg, m, N, W, m/s), as a
/// fraction (numerator, denominator).
pub open spec fn si_factor(u: Unit) -> (int, int) {
    match u {
        Unit::Kilogram => (1, 1),
        Unit::Pound => (45359237, 100000000),
        Unit::Tonne => (1000, 1),
        Unit::LongTon => (101605, 100),
        Unit::ShortTon => (90718474, 100000),
        Unit::Metre => (1, 1),
        Unit::Centimetre => (1, 100),
        Unit::Millimetre => (1, 1000),
        Unit::Kilometre => (1000, 1),
        Unit::Foot => (3048, 10000),
        Unit::Inch => (254, 10000),
        Unit::HalfInch => (127, 10000),
        Unit::Newton => (1, 1),
        Unit::Kilonewton => (1000, 1),
        Unit::PoundForce => (444822162, 100000000),
        Unit::Watt => (1, 1),
        Unit::Kilowatt => (1000, 1),
        Unit::Megawatt => (1000000, 1),
        Unit::Horsepower => (745699872, 1000000),
        Unit::MetresPerSecond => (1, 1),
        Unit::KilometresPerHour => (10, 36),
        Unit::MilesPerHour => (44704, 100000),
    }
}

/// The spelling that stands for a group of synonymous suffixes: every suffix
/// that names a quantity's SI unit, `lbf`/`lb` for pound-force, and `km/h`,
/// `kmh`, `kph` for kilometres per hour.
pub open spec fn synonym(s: Seq<char>) -> Seq<char> {
    if s == "kg"@ || s == "m"@ || s == "n"@ || s == "w"@ || s == "m/s"@ || s == "mps"@ {
        ""@
    } else if s == "lbf"@ {
        "lb"@
    } else if s == "kmh"@ || s == "kph"@ {
        "km/h"@
    } else {
        s
    }
}

/// The unit suffixes are different texts.
proof fn lemma_suffixes_differ()
    ensures
        ""@ != "cm"@,
        ""@ != "ft"@,
        ""@ != "hp"@,
        ""@ != "in"@,
        ""@ != "in/2"@,
        ""@ != "kg"@,
        ""@ != "km"@,
        ""@ != "km/h"@,
        ""@ != "kmh"@,
        ""@ != "kn"@,
        ""@ != "kph"@,
        ""@ != "kw"@,
        ""@ != "lb"@,
        ""@ != "lbf"@,
        ""@ != "m"@,
        ""@ != "m/s"@,
        ""@ != "mm"@,
        ""@ != "mph"@,
        ""@ != "mps"@,
        ""@ != "mw"@,
        ""@ != "n"@,
        ""@ != "t"@,
        ""@ != "t-uk"@,
        ""@ != "t-us"@,
        ""@ != "w"@,
        "cm"@ != "ft"@,
        "cm"@ != "hp"@,
        "cm"@ != "in"@,
        "cm"@ != "in/2"@,
        "cm"@ != "kg"@,
        "cm"@ != "km"@,
        "cm"@ != "km/h"@,
        "cm"@ != "kmh"@,
        "cm"@ != "kn"@,
        "cm"@ != "kph"@,
        "cm"@ != "kw"@,
        "cm"@ != "lb"@,
        "cm"@ != "lbf"@,
        "cm"@ != "m"@,
        "cm"@ != "m/s"@,
        "cm"@ != "mm"@,
        "cm"@ != "mph"@,
        "cm"@ != "mps"@,
        "cm"@ != "mw"@,
        "cm"@ != "n"@,
        "cm"@ != "t"@,
        "cm"@ != "t-uk"@,
        "cm"@ != "t-us"@,
        "cm"@ != "w"@,
        "ft"@ != "hp"@,
        "ft"@ != "in"@,
        "ft"@ != "in/2"@,
        "ft"@ != "kg"@,
        "ft"@ != "km"@,
        "ft"@ != "km/h"@,
        "ft"@ != "kmh"@,
        "ft"@ != "kn"@,
        "ft"@ != "kph"@,
        "ft"@ != "kw"@,
        "ft"@ != "lb"@,
        "ft"@ != "lbf"@,
        "ft"@ != "m"@,
        "ft"@ != "m/s"@,
        "ft"@ != "mm"@,
        "ft"@ != "mph"@,
        "ft"@ != "mps"@,
        "ft"@ != "mw"@,
        "ft"@ != "n"@,
        "ft"@ != "t"@,
        "ft"@ != "t-uk"@,
        "ft"@ != "t-us"@,
        "ft"@ != "w"@,
        "hp"@ != "in"@,
        "hp"@ != "in/2"@,
        "hp"@ != "kg"@,
        "hp"@ != "km"@,
        "hp"@ != "km/h"@,
        "hp"@ != "kmh"@,
        "hp"@ != "kn"@,
        "hp"@ != "kph"@,
        "hp"@ != "kw"@,
        "hp"@ != "lb"@,
        "hp"@ != "lbf"@,
        "hp"@ != "m"@,
        "hp"@ != "m/s"@,
        "hp"@ != "mm"@,
        "hp"@ != "mph"@,
        "hp"@ != "mps"@,
        "hp"@ != "mw"@,
        "hp"@ != "n"@,
        "hp"@ != "t"@,
        "hp"@ != "t-uk"@,
        "hp"@ != "t-us"@,
        "hp"@ != "w"@,
        "in"@ != "in/2"@,
        "in"@ != "kg"@,
        "in"@ != "km"@,
        "in"@ != "km/h"@,
        "in"@ != "kmh"@,
        "in"@ != "kn"@,
        "in"@ != "kph"@,
        "in"@ != "kw"@,
        "in"@ != "lb"@,
        "in"@ != "lbf"@,
        "in"@ != "m"@,
        "in"@ != "m/s"@,
        "in"@ != "mm"@,
        "in"@ != "mph"@,
        "in"@ != "mps"@,
        "in"@ != "mw"@,
        "in"@ != "n"@,
        "in"@ != "t"@,
        "in"@ != "t-uk"@,
        "in"@ != "t-us"@,
        "in"@ != "w"@,
        "in/2"@ != "kg"@,
        "in/2"@ != "km"@,
        "in/2"@ != "km/h"@,
        "in/2"@ != "kmh"@,
        "in/2"@ != "kn"@,
        "in/2"@ != "kph"@,
        "in/2"@ != "kw"@,
        "in/2"@ != "lb"@,
        "in/2"@ != "lbf"@,
        "in/2"@ != "m"@,
        "in/2"@ != "m/s"@,
        "in/2"@ != "mm"@,
        "in/2"@ != "mph"@,
        "in/2"@ != "mps"@,
        "in/2"@ != "mw"@,
        "in/2"@ != "n"@,
        "in/2"@ != "t"@,
        "in/2"@ != "t-uk"@,
        "in/2"@ != "t-us"@,
        "in/2"@ != "w"@,
        "kg"@ != "km"@,
        "kg"@ != "km/h"@,
        "kg"@ != "kmh"@,
        "kg"@ != "kn"@,
        "kg"@ != "kph"@,
        "kg"@ != "kw"@,
        "kg"@ != "lb"@,
        "kg"@ != "lbf"@,
        "kg"@ != "m"@,
        "kg"@ != "m/s"@,
        "kg"@ != "mm"@,
        "kg"@ != "mph"@,
        "kg"@ != "mps"@,
        "kg"@ != "mw"@,
        "kg"@ != "n"@,
        "kg"@ != "t"@,
        "kg"@ != "t-uk"@,
        "kg"@ != "t-us"@,
        "kg"@ != "w"@,
        "km"@ != "km/h"@,
        "km"@ != "kmh"@,
        "km"@ != "kn"@,
        "km"@ != "kph"@,
        "km"@ != "kw"@,
        "km"@ != "lb"@,
        "km"@ != "lbf"@,
        "km"@ != "m"@,
        "km"@ != "m/s"@,
        "km"@ != "mm"@,
        "km"@ != "mph"@,
        "km"@ != "mps"@,
        "km"@ != "mw"@,
        "km"@ != "n"@,
        "km"@ != "t"@,
        "km"@ != "t-uk"@,
        "km"@ != "t-us"@,
        "km"@ != "w"@,
        "km/h"@ != "kmh"@,
        "km/h"@ != "kn"@,
        "km/h"@ != "kph"@,
        "km/h"@ != "kw"@,
        "km/h"@ != "lb"@,
        "km/h"@ != "lbf"@,
        "km/h"@ != "m"@,
        "km/h"@ != "m/s"@,
        "km/h"@ != "mm"@,
        "km/h"@ != "mph"@,
        "km/h"@ != "mps"@,
        "km/h"@ != "mw"@,
        "km/h"@ != "n"@,
        "km/h"@ != "t"@,
        "km/h"@ != "t-uk"@,
        "km/h"@ != "t-us"@,
        "km/h"@ != "w"@,
        "kmh"@ != "kn"@,
        "kmh"@ != "kph"@,
        "kmh"@ != "kw"@,
        "kmh"@ != "lb"@,
        "kmh"@ != "lbf"@,
        "kmh"@ != "m"@,
        "kmh"@ != "m/s"@,
        "kmh"@ != "mm"@,
        "kmh"@ != "mph"@,
        "kmh"@ != "mps"@,
        "kmh"@ != "mw"@,
        "kmh"@ != "n"@,
        "kmh"@ != "t"@,
        "kmh"@ != "t-uk"@,
        "kmh"@ != "t-us"@,
        "kmh"@ != "w"@,
        "kn"@ != "kph"@,
        "kn"@ != "kw"@,
        "kn"@ != "lb"@,
        "kn"@ != "lbf"@,
        "kn"@ != "m"@,
        "kn"@ != "m/s"@,
        "kn"@ != "mm"@,
        "kn"@ != "mph"@,
        "kn"@ != "mps"@,
        "kn"@ != "mw"@,
        "kn"@ != "n"@,
        "kn"@ != "t"@,
        "kn"@ != "t-uk"@,
        "kn"@ != "t-us"@,
        "kn"@ != "w"@,
        "kph"@ != "kw"@,
        "kph"@ != "lb"@,
        "kph"@ != "lbf"@,
        "kph"@ != "m"@,
        "kph"@ != "m/s"@,
        "kph"@ != "mm"@,
        "kph"@ != "mph"@,
        "kph"@ != "mps"@,
        "kph"@ != "mw"@,
        "kph"@ != "n"@,
        "kph"@ != "t"@,
        "kph"@ != "t-uk"@,
        "kph"@ != "t-us"@,
        "kph"@ != "w"@,
        "kw"@ != "lb"@,
        "kw"@ != "lbf"@,
        "kw"@ != "m"@,
        "kw"@ != "m/s"@,
        "kw"@ != "mm"@,
        "kw"@ != "mph"@,
        "kw"@ != "mps"@,
        "kw"@ != "mw"@,
        "kw"@ != "n"@,
        "kw"@ != "t"@,
        "kw"@ != "t-uk"@,
        "kw"@ != "t-us"@,
        "kw"@ != "w"@,
        "lb"@ != "lbf"@,
        "lb"@ != "m"@,
        "lb"@ != "m/s"@,
        "lb"@ != "mm"@,
        "lb"@ != "mph"@,
        "lb"@ != "mps"@,
        "lb"@ != "mw"@,
        "lb"@ != "n"@,
        "lb"@ != "t"@,
        "lb"@ != "t-uk"@,
        "lb"@ != "t-us"@,
        "lb"@ != "w"@,
        "lbf"@ != "m"@,
        "lbf"@ != "m/s"@,
        "lbf"@ != "mm"@,
        "lbf"@ != "mph"@,
        "lbf"@ != "mps"@,
        "lbf"@ != "mw"@,
        "lbf"@ != "n"@,
        "lbf"@ != "t"@,
        "lbf"@ != "t-uk"@,
        "lbf"@ != "t-us"@,
        "lbf"@ != "w"@,
        "m"@ != "m/s"@,
        "m"@ != "mm"@,
        "m"@ != "mph"@,
        "m"@ != "mps"@,
        "m"@ != "mw"@,
        "m"@ != "n"@,
        "m"@ != "t"@,
        "m"@ != "t-uk"@,
        "m"@ != "t-us"@,
        "m"@ != "w"@,
        "m/s"@ != "mm"@,
        "m/s"@ != "mph"@,
        "m/s"@ != "mps"@,
        "m/s"@ != "mw"@,
        "m/s"@ != "n"@,
        "m/s"@ != "t"@,
        "m/s"@ != "t-uk"@,
        "m/s"@ != "t-us"@,
        "m/s"@ != "w"@,
        "mm"@ != "mph"@,
        "mm"@ != "mps"@,
        "mm"@ != "mw"@,
        "mm"@ != "n"@,
        "mm"@ != "t"@,
        "mm"@ != "t-uk"@,
        "mm"@ != "t-us"@,
        "mm"@ != "w"@,
        "mph"@ != "mps"@,
        "mph"@ != "mw"@,
        "mph"@ != "n"@,
        "mph"@ != "t"@,
        "mph"@ != "t-uk"@,
        "mph"@ != "t-us"@,
        "mph"@ != "w"@,
        "mps"@ != "mw"@,
        "mps"@ != "n"@,
        "mps"@ != "t"@,
        "mps"@ != "t-uk"@,
        "mps"@ != "t-us"@,
        "mps"@ != "w"@,
        "mw"@ != "n"@,
        "mw"@ != "t"@,
        "mw"@ != "t-uk"@,
        "mw"@ != "t-us"@,
        "mw"@ != "w"@,
        "n"@ != "t"@,
        "n"@ != "t-uk"@,
        "n"@ != "t-us"@,
        "n"@ != "w"@,
        "t"@ != "t-uk"@,
        "t"@ != "t-us"@,
        "t"@ != "w"@,
        "t-uk"@ != "t-us"@,
        "t-uk"@ != "w"@,
        "t-us"@ != "w"@,
{
    reveal_strlit("");
    reveal_strlit("cm");
    reveal_strlit("ft");
    reveal_strlit("hp");
    reveal_strlit("in");
    reveal_strlit("in/2");
    reveal_strlit("kg");
    reveal_strlit("km");
    reveal_strlit("km/h");
    reveal_strlit("kmh");
    reveal_strlit("kn");
    reveal_strlit("kph");
    reveal_strlit("kw");
    reveal_strlit("lb");
    reveal_strlit("lbf");
    reveal_strlit("m");
    reveal_strlit("m/s");
    reveal_strlit("mm");
    reveal_strlit("mph");
    reveal_strlit("mps");
    reveal_strlit("mw");
    reveal_strlit("n");
    reveal_strlit("t");
    reveal_strlit("t-uk");
    reveal_strlit("t-us");
    reveal_strlit("w");
    assert(""@.len() == 0);
    assert("cm"@.len() == 2);
    assert("ft"@.len() == 2);
    assert("hp"@.len() == 2);
    assert("in"@.len() == 2);
    assert("in/2"@.len() == 4);
    assert("kg"@.len() == 2);
    assert("km"@.len() == 2);
    assert("km/h"@.len() == 4);
    assert("kmh"@.len() == 3);
    assert("kn"@.len() == 2);
    assert("kph"@.len() == 3);
    assert("kw"@.len() == 2);
    assert("lb"@.len() == 2);
    assert("lbf"@.len() == 3);
    assert("m"@.len() == 1);
    assert("m/s"@.len() == 3);
    assert("mm"@.len() == 2);
    assert("mph"@.len() == 3);
    assert("mps"@.len() == 3);
    assert("mw"@.len() == 2);
    assert("n"@.len() == 1);
    assert("t"@.len() == 1);
    assert("t-uk"@.len() == 4);
    assert("t-us"@.len() == 4);
    assert("w"@.len() == 1);
    assert("cm"@[0] != "ft"@[0]);
    assert("cm"@[0] != "hp"@[0]);
    assert("cm"@[0] != "in"@[0]);
    assert("cm"@[0] != "kg"@[0]);
    assert("cm"@[0] != "km"@[0]);
    assert("cm"@[0] != "kn"@[0]);
    assert("cm"@[0] != "kw"@[0]);
    assert("cm"@[0] != "lb"@[0]);
    assert("cm"@[0] != "mm"@[0]);
    assert("cm"@[0] != "mw"@[0]);
    assert("ft"@[0] != "hp"@[0]);
    assert("ft"@[0] != "in"@[0]);
    assert("ft"@[0] != "kg"@[0]);
    assert("ft"@[0] != "km"@[0]);
    assert("ft"@[0] != "kn"@[0]);
    assert("ft"@[0] != "kw"@[0]);
    assert("ft"@[0] != "lb"@[0]);
    assert("ft"@[0] != "mm"@[0]);
    assert("ft"@[0] != "mw"@[0]);
    assert("hp"@[0] != "in"@[0]);
    assert("hp"@[0] != "kg"@[0]);
    assert("hp"@[0] != "km"@[0]);
    assert("hp"@[0] != "kn"@[0]);
    assert("hp"@[0] != "kw"@[0]);
    assert("hp"@[0] != "lb"@[0]);
    assert("hp"@[0] != "mm"@[0]);
    assert("hp"@[0] != "mw"@[0]);
    assert("in"@[0] != "kg"@[0]);
    assert("in"@[0] != "km"@[0]);
    assert("in"@[0] != "kn"@[0]);
    assert("in"@[0] != "kw"@[0]);
    assert("in"@[0] != "lb"@[0]);
    assert("in"@[0] != "mm"@[0]);
    assert("in"@[0] != "mw"@[0]);
    assert("in/2"@[0] != "km/h"@[0]);
    assert("in/2"@[0] != "t-uk"@[0]);
    assert("in/2"@[0] != "t-us"@[0]);
    assert("kg"@[1] != "km"@[1]);
    assert("kg"@[1] != "kn"@[1]);
    assert("kg"@[1] != "kw"@[1]);
    assert("kg"@[0] != "lb"@[0]);
    assert("kg"@[0] != "mm"@[0]);
    assert("kg"@[0] != "mw"@[0]);
    assert("km"@[1] != "kn"@[1]);
    assert("km"@[1] != "kw"@[1]);
    assert("km"@[0] != "lb"@[0]);
    assert("km"@[0] != "mm"@[0]);
    assert("km"@[0] != "mw"@[0]);
    assert("km/h"@[0] != "t-uk"@[0]);
    assert("km/h"@[0] != "t-us"@[0]);
    assert("kmh"@[1] != "kph"@[1]);
    assert("kmh"@[0] != "lbf"@[0]);
    assert("kmh"@[0] != "m/s"@[0]);
    assert("kmh"@[0] != "mph"@[0]);
    assert("kmh"@[0] != "mps"@[0]);
    assert("kn"@[1] != "kw"@[1]);
    assert("kn"@[0] != "lb"@[0]);
    assert("kn"@[0] != "mm"@[0]);
    assert("kn"@[0] != "mw"@[0]);
    assert("kph"@[0] != "lbf"@[0]);
    assert("kph"@[0] != "m/s"@[0]);
    assert("kph"@[0] != "mph"@[0]);
    assert("kph"@[0] != "mps"@[0]);
    assert("kw"@[0] != "lb"@[0]);
    assert("kw"@[0] != "mm"@[0]);
    assert("kw"@[0] != "mw"@[0]);
    assert("lb"@[0] != "mm"@[0]);
    assert("lb"@[0] != "mw"@[0]);
    assert("lbf"@[0] != "m/s"@[0]);
    assert("lbf"@[0] != "mph"@[0]);
    assert("lbf"@[0] != "mps"@[0]);
    assert("m"@[0] != "n"@[0]);
    assert("m"@[0] != "t"@[0]);
    assert("m"@[0] != "w"@[0]);
    assert("m/s"@[1] != "mph"@[1]);
    assert("m/s"@[1] != "mps"@[1]);
    assert("mm"@[1] != "mw"@[1]);
    assert("mph"@[2] != "mps"@[2]);
    assert("n"@[0] != "t"@[0]);
    assert("n"@[0] != "w"@[0]);
    assert("t"@[0] != "w"@[0]);
    assert("t-uk"@[3] != "t-us"@[3]);
}

/// Law: a suffix only ever names a unit of the quantity it was read for.
pub proof fn law_units_measure_their_kind(kind: UnitKind, s: Seq<char>)
    ensures
        unit_for(kind, s) matches Some(u) ==> unit_dimension(u) == kind,
{
}

/// Law: suffixes that name the same unit are synonyms; in particular the
/// mass suffixes `t`, `t-uk` and `t-us` name three different units.
pub proof fn law_distinct_suffixes_name_distinct_units(kind: UnitKind, s1: Seq<char>, s2: Seq<char>)
    ensures
        unit_for(kind, s1) is Some && unit_for(kind, s1) == unit_for(kind, s2) ==> synonym(s1) == synonym(s2),
{
    lemma_suffixes_differ();
    match kind {
        UnitKind::Mass => {},
        UnitKind::Distance => {},
        UnitKind::Force => {},
        UnitKind::Power => {},
        UnitKind::Speed => {},
    }
}

/// Law: only the listed suffixes name units; any other is unsupported.
pub proof fn law_only_listed_suffixes_name_units(s: Seq<char>)
    ensures
        unit_for(UnitKind::Mass, s) is Some ==> (s == ""@ || s == "kg"@ || s == "lb"@ || s == "t"@ || s == "t-uk"@ || s == "t-us"@),
        unit_for(UnitKind::Distance, s) is Some ==> (s == ""@ || s == "m"@ || s == "cm"@ || s == "mm"@ || s == "km"@ || s == "ft"@ || s == "in"@ || s == "in/2"@),
        unit_for(UnitKind::Force, s) is Some ==> (s == ""@ || s == "n"@ || s == "kn"@ || s == "lbf"@ || s == "lb"@),
        unit_for(UnitKind::Power, s) is Some ==> (s == ""@ || s == "w"@ || s == "kw"@ || s == "mw"@ || s == "hp"@),
        unit_for(UnitKind::Speed, s) is Some ==> (s == ""@ || s == "m/s"@ || s == "mps"@ || s == "km/h"@ || s == "kmh"@ || s == "kph"@ || s == "mph"@),
{
}

/// Law: what each vehicle-file suffix means, as the size of its unit in SI
/// units: `t` is the metric tonne of 1000 kg, `t-uk` the long ton of
/// 1016.05 kg, `t-us` the short ton of 907.18474 kg, `lb` the pound of
/// 0.45359237 kg (or, for a force, the pound-force of 4.44822162 N), `in/2`
/// half an inch, `hp` 745.699872 W, `mph` 0.44704 m/s; no suffix means the SI
/// unit itself.
pub proof fn law_suffix_sizes()
    ensures
        unit_for(UnitKind::Mass, ""@) matches Some(u) && si_factor(u) == (1int, 1int),
        unit_for(UnitKind::Mass, "kg"@) matches Some(u) && si_factor(u) == (1int, 1int),
        unit_for(UnitKind::Mass, "lb"@) matches Some(u) && si_factor(u) == (45359237int, 100000000int),
        unit_for(UnitKind::Mass, "t"@) matches Some(u) && si_factor(u) == (1000int, 1int),
        unit_for(UnitKind::Mass, "t-uk"@) matches Some(u) && si_factor(u) == (101605int, 100int),
        unit_for(UnitKind::Mass, "t-us"@) matches Some(u) && si_factor(u) == (90718474int, 100000int),
        unit_for(UnitKind::Distance, ""@) matches Some(u) && si_factor(u) == (1int, 1int),
        unit_for(UnitKind::Distance, "m"@) matches Some(u) && si_factor(u) == (1int, 1int),
        unit_for(UnitKind::Distance, "cm"@) matches Some(u) && si_factor(u) == (1int, 100int),
        unit_for(UnitKind::Distance, "mm"@) matches Some(u) && si_factor(u) == (1int, 1000int),
        unit_for(UnitKind::Distance, "km"@) matches Some(u) && si_factor(u) == (1000int, 1int),
        unit_for(UnitKind::Distance, "ft"@) matches Some(u) && si_factor(u) == (3048int, 10000int),
        unit_for(UnitKind::Distance, "in"@) matches Some(u) && si_factor(u) == (254int, 10000int),
        unit_for(UnitKind::Distance, "in/2"@) matches Some(u) && si_factor(u) == (127int, 10000int),
        unit_for(UnitKind::Force, ""@) matches Some(u) && si_factor(u) == (1int, 1int),
        unit_for(UnitKind::Force, "n"@) matches Some(u) && si_factor(u) == (1int, 1int),
        unit_for(UnitKind::Force, "kn"@) matches Some(u) && si_factor(u) == (1000int, 1int),
        unit_for(UnitKind::Force, "lbf"@) matches Some(u) && si_factor(u) == (444822162int, 100000000int),
        unit_for(UnitKind::Force, "lb"@) matches Some(u) && si_factor(u) == (444822162int, 100000000int),
        unit_for(UnitKind::Power, ""@) matches Some(u) && si_factor(u) == (1int, 1int),
        unit_for(UnitKind::Power, "w"@) matches Some(u) && si_factor(u) == (1int, 1int),
        unit_for(UnitKind::Power, "kw"@) matches Some(u) && si_factor(u) == (1000int, 1int),
        unit_for(UnitKind::Power, "mw"@) matches Some(u) && si_factor(u) == (1000000int, 1int),
        unit_for(UnitKind::Power, "hp"@) matches Some(u) && si_factor(u) == (745699872int, 1000000int),
        unit_for(UnitKind::Speed, ""@) matches Some(u) && si_factor(u) == (1int, 1int),
        unit_for(UnitKind::Speed, "m/s"@) matches Some(u) && si_factor(u) == (1int, 1int),
        unit_for(UnitKind::Speed, "mps"@) matches Some(u) && si_factor(u) == (1int, 1int),
        unit_for(UnitKind::Speed, "km/h"@) matches Some(u) && si_factor(u) == (10int, 36int),
        unit_for(UnitKind::Speed, "kmh"@) matches Some(u) && si_factor(u) == (10int, 36int),
        unit_for(UnitKind::Speed, "kph"@) matches Some(u) && si_factor(u) == (10int, 36int),
        unit_for(UnitKind::Speed, "mph"@) matches Some(u) && si_factor(u) == (44704int, 100000int),
{
    lemma_suffixes_differ();
}

/// The unit of a quantity, or the message for an unsupported one.
pub fn unit_of(kind: UnitKind, suffix: &str, raw: &str) -> (r: Result<Unit, String>)
    ensures
        match r {
            Ok(u) => unit_for(kind, suffix@) == Some(u),
            Err(e) => unit_for(kind, suffix@) is None && e@ == "unsupported "@ + kind_name(kind)
                + " unit "@ + debug_text(suffix@) + " in "@ + debug_text(raw@),
        },
{
    let s = chars_of(suffix);
    let found = match kind {
        UnitKind::Mass => if named(&s, "") || named(&s, "kg") {
            Some(Unit::Kilogram)
        } else if named(&s, "lb") {
            Some(Unit::Pound)
        } else if named(&s, "t") {
            Some(Unit::Tonne)
        } else if named(&s, "t-uk") {
            Some(Unit::LongTon)
        } else if named(&s, "t-us") {
            Some(Unit::ShortTon)
        } else {
            None
        },
        UnitKind::Distance => if named(&s, "") || named(&s, "m") {
            Some(Unit::Metre)
        } else if named(&s, "cm") {
            Some(Unit::Centimetre)
        } else if named(&s, "mm") {
            Some(Unit::Millimetre)
        } else if named(&s, "km") {
            Some(Unit::Kilometre)
        } else if named(&s, "ft") {
            Some(Unit::Foot)
        } else if named(&s, "in") {
            Some(Unit::Inch)
        } else if named(&s, "in/2") {
            Some(Unit::HalfInch)
        } else {
            None
        },
        UnitKind::Force => if named(&s, "") || named(&s, "n") {
            Some(Unit::Newton)
        } else if named(&s, "kn") {
            Some(Unit::Kilonewton)
        } else if named(&s, "lbf") || named(&s, "lb") {
            Some(Unit::PoundForce)
        } else {
            None
        },
        UnitKind::Power => if named(&s, "") || named(&s, "w") {
            Some(Unit::Watt)
        } else if named(&s, "kw") {
            Some(Unit::Kilowatt)
        } else if named(&s, "mw") {
            Some(Unit::Megawatt)
        } else if named(&s, "hp") {
            Some(Unit::Horsepower)
        } else {
            None
        },
        UnitKind::Speed => if named(&s, "") || named(&s, "m/s") || named(&s, "mps") {
            Some(Unit::MetresPerSecond)
        } else if named(&s, "km/h") || named(&s, "kmh") || named(&s, "kph") {
            Some(Unit::KilometresPerHour)
        } else if named(&s, "mph") {
            Some(Unit::MilesPerHour)
        } else {
            None
        },
    };
    match found {
        Some(u) => Ok(u),
        None => {
            let mut m: Vec<char> = Vec::new();
            push_str(&mut m, "unsupported ");
            push_str(
                &mut m,
                match kind {
                    UnitKind::Mass => "mass",
                    UnitKind::Distance => "distance",
                    UnitKind::Force => "force",
                    UnitKind::Power => "power",
                    UnitKind::Speed => "speed",
                },
            );
            push_str(&mut m, " unit ");
            push_str(&mut m, debug_quoted(suffix).as_str());
            push_str(&mut m, " in ");
            push_str(&mut m, debug_quoted(raw).as_str());
            Err(string_of(&m))
        },
    }
}

} // verus!
