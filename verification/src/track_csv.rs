//! The RailWeave track CSV exchange format: its table, its columns, and how
//! consecutive rows of one line become track segments.
use vstd::prelude::*;

use crate::model::ImportError;
use crate::text::{
    chars_of, debug_quoted, debug_text, eq_ignore_ascii_case, eq_ignore_case, fields, lines,
    lower_seq, lowercase, push_str, slice_eq, split_lines, split_on, starts_with, string_of, trim,
    trimmed, views,
};

verus! {

/// The trimmed lines that carry data: not blank, not starting with `#`.
pub open spec fn kept_lines(ls: Seq<Seq<char>>) -> Seq<Seq<char>>
    decreases ls.len(),
{
    if ls.len() == 0 {
        Seq::empty()
    } else {
        let t = trim(ls.last());
        if t.len() > 0 && !starts_with(t, "#"@) {
            kept_lines(ls.drop_last()).push(t)
        } else {
            kept_lines(ls.drop_last())
        }
    }
}

/// The column names of a header line: split at `,`, trimmed, lowercased.
pub open spec fn header_names(line: Seq<char>) -> Seq<Seq<char>> {
    let f = fields(line, ',');
    Seq::new(f.len(), |k: int| lower_seq(trim(f[k])))
}

/// A track CSV's column names and data rows (each split at `,`).
#[derive(Debug)]
pub struct CsvTable {
    pub headers: Vec<String>,
    pub rows: Vec<Vec<String>>,
}

pub open spec fn strings(v: Seq<String>) -> Seq<Seq<char>> {
    v.map_values(|s: String| s@)
}

pub open spec fn rows_view(v: Seq<Vec<String>>) -> Seq<Seq<Seq<char>>> {
    v.map_values(|r: Vec<String>| strings(r@))
}

/// The table of a track CSV, or why there is none: the first kept line is the
/// header and must name columns `x` and `z`.
pub open spec fn csv_table(text: Seq<char>) -> Result<(Seq<Seq<char>>, Seq<Seq<Seq<char>>>), (Seq<char>, Seq<char>)> {
    let k = kept_lines(lines(text));
    if k.len() == 0 {
        Err(("RW131_CSV_EMPTY"@, "track CSV is empty"@))
    } else {
        let h = header_names(k[0]);
        if !h.contains("x"@) {
            Err(("RW132_CSV_HEADER"@, "track CSV requires "@ + debug_text("x"@) + " column"@))
        } else if !h.contains("z"@) {
            Err(("RW132_CSV_HEADER"@, "track CSV requires "@ + debug_text("z"@) + " column"@))
        } else {
            let rows = k.skip(1);
            Ok((h, Seq::new(rows.len(), |r: int| fields(rows[r], ','))))
        }
    }
}

fn to_strings(v: &Vec<Vec<char>>) -> (r: Vec<String>)
    ensures
        strings(r@) == views(v@),
{
    let mut r: Vec<String> = Vec::new();
    let mut k: usize = 0;
    while k < v.len()
        invariant
            k <= v@.len(),
            strings(r@) == views(v@).take(k as int),
        decreases v.len() - k,
    {
        let s = string_of(v[k].as_slice());
        let ghost before = r@;
        r.push(s);
        assert(strings(r@) =~= strings(before).push(s@));
        assert(views(v@).take(k + 1) =~= views(v@).take(k as int).push(v@[k as int]@));
        k += 1;
    }
    assert(views(v@).take(k as int) =~= views(v@));
    r
}

fn has_column(h: &Vec<String>, name: &str) -> (r: bool)
    ensures
        r == strings(h@).contains(name@),
{
    let n = chars_of(name);
    let mut k: usize = 0;
    while k < h.len()
        invariant
            k <= h@.len(),
            n@ == name@,
            forall|j: int| 0 <= j < k ==> #[trigger] strings(h@)[j] != name@,
        decreases h.len() - k,
    {
        assert(strings(h@)[k as int] == h@[k as int]@);
        if slice_eq(&chars_of(h[k].as_str()), &n) {
            return true;
        }
        k += 1;
    }
    false
}

/// Reads the table of a track CSV.
pub fn track_csv_table(text: &str) -> (r: Result<CsvTable, ImportError>)
    ensures
        match r {
            Ok(t) => csv_table(text@) == Ok::<
                (Seq<Seq<char>>, Seq<Seq<Seq<char>>>),
                (Seq<char>, Seq<char>),
            >((strings(t.headers@), rows_view(t.rows@))),
            Err(e) => csv_table(text@) == Err::<
                (Seq<Seq<char>>, Seq<Seq<Seq<char>>>),
                (Seq<char>, Seq<char>),
            >((e.code@, e.message@)),
        },
{
    let chars = chars_of(text);
    let all = split_lines(&chars);
    let ghost ls = views(all@);
    let mut kept: Vec<Vec<char>> = Vec::new();
    let mut i: usize = 0;
    assert(ls.take(0) =~= Seq::<Seq<char>>::empty());
    while i < all.len()
        invariant
            i <= all@.len(),
            ls == views(all@),
            views(kept@) == kept_lines(ls.take(i as int)),
        decreases all.len() - i,
    {
        let t = trimmed(&all[i]);
        assert(ls.take(i + 1).drop_last() =~= ls.take(i as int));
        assert(ls[i as int] == all@[i as int]@);
        proof {
            reveal_strlit("#");
        }
        let comment = t.len() > 0 && t[0] == '#';
        assert(comment == starts_with(t@, "#"@)) by {
            if t@.len() > 0 && t@[0] == '#' {
                assert(t@.take(1) =~= "#"@);
            }
            if starts_with(t@, "#"@) {
                assert(t@.take(1)[0] == '#');
            }
        }
        if t.len() > 0 && !comment {
            let ghost before = views(kept@);
            kept.push(t);
            assert(views(kept@) =~= before.push(t@));
        }
        i += 1;
    }
    assert(ls.take(i as int) =~= ls);
    if kept.len() == 0 {
        return Err(ImportError::new("RW131_CSV_EMPTY", "track CSV is empty".to_owned()));
    }
    assert(views(kept@)[0] == kept@[0]@);
    let header_fields = split_on(&kept[0], ',');
    let mut headers: Vec<String> = Vec::new();
    let mut k: usize = 0;
    while k < header_fields.len()
        invariant
            k <= header_fields@.len(),
            strings(headers@) == Seq::new(
                k as nat,
                |j: int| lower_seq(trim(views(header_fields@)[j])),
            ),
        decreases header_fields.len() - k,
    {
        let h = lowercase(&trimmed(&header_fields[k]));
        let s = string_of(&h);
        let ghost before = headers@;
        headers.push(s);
        assert(views(header_fields@)[k as int] == header_fields@[k as int]@);
        assert(strings(headers@) =~= strings(before).push(s@));
        assert(strings(headers@) =~= Seq::new(
            (k + 1) as nat,
            |j: int| lower_seq(trim(views(header_fields@)[j])),
        ));
        k += 1;
    }
    assert(strings(headers@) =~= header_names(kept@[0]@));
    if !has_column(&headers, "x") {
        let mut m: Vec<char> = Vec::new();
        push_str(&mut m, "track CSV requires ");
        push_str(&mut m, debug_quoted("x").as_str());
        push_str(&mut m, " column");
        return Err(ImportError::new("RW132_CSV_HEADER", string_of(&m)));
    }
    if !has_column(&headers, "z") {
        let mut m: Vec<char> = Vec::new();
        push_str(&mut m, "track CSV requires ");
        push_str(&mut m, debug_quoted("z").as_str());
        push_str(&mut m, " column");
        return Err(ImportError::new("RW132_CSV_HEADER", string_of(&m)));
    }
    let ghost kv = views(kept@);
    let mut rows: Vec<Vec<String>> = Vec::new();
    let mut r: usize = 1;
    while r < kept.len()
        invariant
            1 <= r <= kept@.len(),
            kv == views(kept@),
            rows_view(rows@) == Seq::new(
                (r - 1) as nat,
                |q: int| fields(kv.skip(1)[q], ','),
            ),
        decreases kept.len() - r,
    {
        let f = split_on(&kept[r], ',');
        let row = to_strings(&f);
        let ghost before = rows@;
        rows.push(row);
        assert(kv.skip(1)[r - 1] == kept@[r as int]@);
        assert(rows_view(rows@) =~= rows_view(before).push(strings(row@)));
        assert(rows_view(rows@) =~= Seq::new(r as nat, |q: int| fields(kv.skip(1)[q], ',')));
        r += 1;
    }
    Ok(CsvTable { headers, rows })
}

/// The first column at or after `i` named `name`, ignoring ASCII case.
pub open spec fn column_index(h: Seq<Seq<char>>, name: Seq<char>, i: int) -> Option<int>
    decreases h.len() - i,
{
    if i < 0 || i >= h.len() {
        None
    } else if eq_ignore_case(h[i], name) {
        Some(i)
    } else {
        column_index(h, name, i + 1)
    }
}

/// A row's trimmed, non-empty value in the first column named `name`.
pub open spec fn value_in(h: Seq<Seq<char>>, row: Seq<Seq<char>>, name: Seq<char>) -> Option<Seq<char>> {
    match column_index(h, name, 0) {
        Some(i) => if i < row.len() && trim(row[i]).len() > 0 {
            Some(trim(row[i]))
        } else {
            None
        },
        None => None,
    }
}

/// The value of the first of `names` (aliases of one column) that the row has.
pub open spec fn lookup(h: Seq<Seq<char>>, row: Seq<Seq<char>>, names: Seq<Seq<char>>) -> Option<Seq<char>>
    decreases names.len(),
{
    if names.len() == 0 {
        None
    } else {
        match value_in(h, row, names[0]) {
            Some(v) => Some(v),
            None => lookup(h, row, names.drop_first()),
        }
    }
}

pub open spec fn name_views(names: Seq<&str>) -> Seq<Seq<char>> {
    names.map_values(|n: &str| n@)
}

/// A row's value for a column known under several names (`csv_value`).
pub fn csv_value(headers: &Vec<String>, row: &Vec<String>, names: &[&str]) -> (r: Option<String>)
    ensures
        match r {
            Some(v) => lookup(strings(headers@), strings(row@), name_views(names@)) == Some(v@),
            None => lookup(strings(headers@), strings(row@), name_views(names@)) is None,
        },
{
    let ghost h = strings(headers@);
    let ghost rv = strings(row@);
    let ghost nv = name_views(names@);
    let mut k: usize = 0;
    assert(nv.skip(0) =~= nv);
    while k < names.len()
        invariant
            k <= names@.len(),
            h == strings(headers@),
            rv == strings(row@),
            nv == name_views(names@),
            lookup(h, rv, nv) == lookup(h, rv, nv.skip(k as int)),
        decreases names.len() - k,
    {
        assert(nv.skip(k as int)[0] == names@[k as int]@);
        assert(nv.skip(k as int).drop_first() =~= nv.skip(k + 1));
        let name = chars_of(names[k]);
        let mut i: usize = 0;
        while i < headers.len()
            invariant
                i <= headers@.len(),
                h == strings(headers@),
                name@ == nv.skip(k as int)[0],
                column_index(h, name@, 0) == column_index(h, name@, i as int),
            ensures
                i <= headers@.len(),
                column_index(h, name@, 0) == column_index(h, name@, i as int),
                i < headers@.len() ==> eq_ignore_case(h[i as int], name@),
            decreases headers.len() - i,
        {
            assert(h[i as int] == headers@[i as int]@);
            if eq_ignore_ascii_case(&chars_of(headers[i].as_str()), &name) {
                break;
            }
            i += 1;
        }
        if i < headers.len() {
            assert(h[i as int] == headers@[i as int]@);
            assert(column_index(h, name@, i as int) == Some(i as int));
            if i < row.len() {
                assert(rv[i as int] == row@[i as int]@);
                let v = trimmed(&chars_of(row[i].as_str()));
                if v.len() > 0 {
                    return Some(string_of(&v));
                }
            }
        }
        k += 1;
    }
    None
}

/// Where a row stands in the track: its node, and the edge that joins the
/// previous row's node to it (when both rows belong to the same line).
#[derive(Debug)]
pub struct RowLink {
    pub node_id: u64,
    pub edge_id: Option<u64>,
}

/// The links of the first `n` rows, and the next free id: ids count up from 1;
/// each row takes one for its node and, where the previous row has the same
/// line name, one more for the joining edge.
pub open spec fn links_upto(names: Seq<Seq<char>>, n: int) -> (Seq<(u64, Option<u64>)>, nat)
    decreases n,
{
    if n <= 0 {
        (Seq::empty(), 1)
    } else {
        let (done, next) = links_upto(names, n - 1);
        if n >= 2 && names[n - 2] == names[n - 1] {
            (done.push((next as u64, Some((next + 1) as u64))), next + 2)
        } else {
            (done.push((next as u64, None)), next + 1)
        }
    }
}

pub open spec fn link_views(v: Seq<RowLink>) -> Seq<(u64, Option<u64>)> {
    v.map_values(|l: RowLink| (l.node_id, l.edge_id))
}

pub open spec fn has_edge(links: Seq<(u64, Option<u64>)>) -> bool {
    exists|k: int| 0 <= k < links.len() && (#[trigger] links[k]).1 is Some
}

proof fn lemma_links_next(names: Seq<Seq<char>>, n: int)
    requires
        0 <= n,
    ensures
        links_upto(names, n).1 <= 2 * n + 1,
        links_upto(names, n).0.len() == n,
    decreases n,
{
    if n > 0 {
        lemma_links_next(names, n - 1);
    }
}

/// Numbers the rows' nodes and the edges between consecutive rows of one line;
/// a file that joins no two rows is refused.
pub fn track_csv_links(line_names: &Vec<String>) -> (r: Result<Vec<RowLink>, ImportError>)
    requires
        line_names@.len() < 0x4000_0000_0000_0000,
    ensures
        match r {
            Ok(v) => link_views(v@) == links_upto(strings(line_names@), line_names@.len() as int).0
                && has_edge(link_views(v@)),
            Err(e) => !has_edge(links_upto(strings(line_names@), line_names@.len() as int).0)
                && e.code@ == "RW135_CSV_NO_TRACK"@ && e.message@
                == "track CSV did not produce any connected segments"@,
        },
{
    let ghost names = strings(line_names@);
    let mut out: Vec<RowLink> = Vec::new();
    let mut next: u64 = 1;
    let mut edges = false;
    let mut k: usize = 0;
    while k < line_names.len()
        invariant
            k <= line_names@.len(),
            line_names@.len() < 0x4000_0000_0000_0000,
            names == strings(line_names@),
            (link_views(out@), next as nat) == links_upto(names, k as int),
            edges == has_edge(link_views(out@)),
        decreases line_names.len() - k,
    {
        proof {
            lemma_links_next(names, k as int);
        }
        let ghost before = link_views(out@);
        let joined = k >= 1 && slice_eq(
            &chars_of(line_names[k - 1].as_str()),
            &chars_of(line_names[k].as_str()),
        );
        if joined {
            assert(names[k - 1] == line_names@[k - 1]@ && names[k as int] == line_names@[k as int]@);
            out.push(RowLink { node_id: next, edge_id: Some(next + 1) });
            next = next + 2;
            edges = true;
            assert(link_views(out@) =~= before.push((out@[k as int].node_id, out@[k as int].edge_id)));
            assert(link_views(out@)[k as int].1 is Some);
        } else {
            if k >= 1 {
                assert(names[k - 1] == line_names@[k - 1]@ && names[k as int] == line_names@[k as int]@);
            }
            out.push(RowLink { node_id: next, edge_id: None });
            next = next + 1;
            assert(link_views(out@) =~= before.push((out@[k as int].node_id, out@[k as int].edge_id)));
            assert(has_edge(link_views(out@)) == has_edge(before)) by {
                if has_edge(link_views(out@)) {
                    let j = choose|j: int| 0 <= j < link_views(out@).len() && (#[trigger] link_views(
                        out@,
                    )[j]).1 is Some;
                    assert(before[j] == link_views(out@)[j]);
                }
                if has_edge(before) {
                    let j = choose|j: int| 0 <= j < before.len() && (#[trigger] before[j]).1 is Some;
                    assert(before[j] == link_views(out@)[j]);
                }
            }
        }
        k += 1;
    }
    if !edges {
        return Err(
            ImportError::new(
                "RW135_CSV_NO_TRACK",
                "track CSV did not produce any connected segments".to_owned(),
            ),
        );
    }
    Ok(out)
}

/// Ids never repeat: in row order every node id is larger than all earlier
/// node and edge ids, and an edge takes the id right after its row's node.
/// An edge joins a row to the one before exactly when both have the same line name.
pub proof fn law_csv_links(names: Seq<Seq<char>>, n: int)
    requires
        0 <= n <= names.len(),
        names.len() < 0x4000_0000_0000_0000,
    ensures
        ({
            let (links, next) = links_upto(names, n);
            &&& links.len() == n
            &&& forall|k: int| 0 <= k < n ==> (#[trigger] links[k]).0 < next
            &&& forall|k: int|
                0 <= k < n ==> ((#[trigger] links[k]).1 matches Some(e) ==> e == links[k].0 + 1
                    && e < next)
            &&& forall|i: int, j: int|
                0 <= i < j < n ==> (#[trigger] links[i]).0 < (#[trigger] links[j]).0 && (links[i].1 matches Some(
                    e,
                ) ==> e < links[j].0)
            &&& forall|k: int|
                0 <= k < n ==> ((#[trigger] links[k]).1 is Some <==> (k >= 1 && names[k - 1]
                    == names[k]))
        }),
    decreases n,
{
    if n > 0 {
        law_csv_links(names, n - 1);
        lemma_links_next(names, n - 1);
        let (prev, next) = links_upto(names, n - 1);
        let (links, _) = links_upto(names, n);
        assert(next as u64 == next);
        assert(links[n - 1].0 == next);
        assert forall|k: int| 0 <= k < n - 1 implies #[trigger] links[k] == prev[k] by {}
    }
}

} // verus!
