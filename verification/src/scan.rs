//! Choosing the files of a scanned tree that an importer reads, in path order.
use vstd::prelude::*;

use crate::detect::{bve_route_hit, is_bve_route};
use crate::order::{
    insert_pos, lemma_insert_pos_step, lemma_sort_stable, sort_stable, sorted_by, strict_order,
};
use crate::paths::{
    components_view, has_ext, lemma_path_asymmetric, lemma_path_total, lemma_path_transitive,
    name_has_extension, path_before, path_lt, SourceEntry,
};
use crate::text::{chars_of, eq_ignore_ascii_case, eq_ignore_case};

verus! {

/// The path of entry `i`, as components.
pub open spec fn entry_path(es: Seq<SourceEntry>, i: usize) -> Seq<Seq<char>> {
    components_view(es[i as int].components@)
}

/// Entry `i` orders strictly before entry `j` by path.
pub open spec fn by_path(es: Seq<SourceEntry>) -> spec_fn(usize, usize) -> bool {
    |i: usize, j: usize| path_lt(entry_path(es, i), entry_path(es, j))
}

/// The indices of the first `n` entries that `keep` accepts, in scan order.
pub open spec fn picked_upto(es: Seq<SourceEntry>, keep: spec_fn(SourceEntry) -> bool, n: int) -> Seq<
    usize,
>
    decreases n,
{
    if n <= 0 {
        Seq::empty()
    } else if keep(es[n - 1]) {
        picked_upto(es, keep, n - 1).push((n - 1) as usize)
    } else {
        picked_upto(es, keep, n - 1)
    }
}

/// The indices of the entries that `keep` accepts, in path order.
pub open spec fn selected(es: Seq<SourceEntry>, keep: spec_fn(SourceEntry) -> bool) -> Seq<usize> {
    sort_stable(picked_upto(es, keep, es.len() as int), by_path(es))
}

proof fn lemma_picked_in_range(es: Seq<SourceEntry>, keep: spec_fn(SourceEntry) -> bool, n: int)
    requires
        n <= es.len(),
    ensures
        forall|k: int|
            0 <= k < picked_upto(es, keep, n).len() ==> #[trigger] picked_upto(es, keep, n)[k] < n,
    decreases n,
{
    if n > 0 {
        lemma_picked_in_range(es, keep, n - 1);
        let prev = picked_upto(es, keep, n - 1);
        assert forall|k: int| 0 <= k < picked_upto(es, keep, n).len() implies #[trigger] picked_upto(
            es,
            keep,
            n,
        )[k] < n by {
            if k < prev.len() {
                assert(picked_upto(es, keep, n)[k] == prev[k]);
            }
        }
    }
}

/// Path order on entries is a strict order.
pub proof fn lemma_by_path_order(es: Seq<SourceEntry>)
    ensures
        strict_order(by_path(es)),
{
    assert forall|a: usize, b: usize| #[trigger] by_path(es)(a, b) implies !by_path(es)(b, a) by {
        lemma_path_asymmetric(entry_path(es, a), entry_path(es, b));
    }
    assert forall|a: usize, b: usize, c: usize|
        #![trigger by_path(es)(a, b), by_path(es)(b, c)]
        !by_path(es)(a, b) && !by_path(es)(b, c) implies !by_path(es)(a, c) by {
        let (pa, pb, pc) = (entry_path(es, a), entry_path(es, b), entry_path(es, c));
        lemma_path_total(pa, pb);
        lemma_path_total(pb, pc);
        if path_lt(pa, pc) {
            if path_lt(pb, pa) {
                lemma_path_transitive(pb, pa, pc);
                lemma_path_asymmetric(pb, pc);
            } else {
                assert(pa == pb);
            }
        }
    }
}

/// The chosen entries come in path order: no entry precedes one that orders before it.
pub proof fn law_selection_in_path_order(es: Seq<SourceEntry>, keep: spec_fn(SourceEntry) -> bool)
    ensures
        sorted_by(selected(es, keep), by_path(es)),
        selected(es, keep).to_multiset() == picked_upto(es, keep, es.len() as int).to_multiset(),
{
    lemma_by_path_order(es);
    lemma_sort_stable(picked_upto(es, keep, es.len() as int), by_path(es));
}

/// Puts entry indices into path order (stable).
pub fn path_sorted(entries: &[SourceEntry], picks: &Vec<usize>) -> (r: Vec<usize>)
    requires
        forall|k: int| 0 <= k < picks@.len() ==> #[trigger] picks@[k] < entries@.len(),
    ensures
        r@ == sort_stable(picks@, by_path(entries@)),
{
    let ghost es = entries@;
    let ghost before = by_path(es);
    let mut out: Vec<usize> = Vec::new();
    let mut k: usize = 0;
    assert(picks@.take(0) =~= Seq::<usize>::empty());
    while k < picks.len()
        invariant
            es == entries@,
            before == by_path(es),
            forall|j: int| 0 <= j < picks@.len() ==> #[trigger] picks@[j] < entries@.len(),
            k <= picks@.len(),
            out@ == sort_stable(picks@.take(k as int), before),
            forall|j: int| 0 <= j < out@.len() ==> #[trigger] out@[j] < entries@.len(),
        decreases picks.len() - k,
    {
        let x = picks[k];
        let ghost cur = out@;
        let mut p = out.len();
        assert(cur.take(p as int) =~= cur);
        while p > 0 && path_before(&entries[x].components, &entries[out[p - 1]].components)
            invariant
                p <= out@.len(),
                cur == out@,
                x < entries@.len(),
                forall|j: int| 0 <= j < out@.len() ==> #[trigger] out@[j] < entries@.len(),
                es == entries@,
                before == by_path(es),
                insert_pos(cur.take(p as int), x, before) == insert_pos(cur, x, before),
            decreases p,
        {
            proof {
                lemma_insert_pos_step(cur, x, before, p as int);
            }
            p -= 1;
        }
        proof {
            if p > 0 {
                lemma_insert_pos_step(cur, x, before, p as int);
            }
        }
        out.insert(p, x);
        assert(picks@.take(k + 1).drop_last() =~= picks@.take(k as int));
        assert forall|j: int| 0 <= j < out@.len() implies #[trigger] out@[j] < entries@.len() by {
            assert(out@ == cur.insert(p as int, x));
            if j < p {
                assert(out@[j] == cur[j]);
            } else if j > p {
                assert(out@[j] == cur[j - 1]);
            }
        }
        k += 1;
    }
    assert(picks@.take(picks@.len() as int) =~= picks@);
    out
}

/// The regular files whose extension is `ext` (ignoring ASCII case), in path order.
pub fn files_with_extension(entries: &[SourceEntry], ext: &str) -> (r: Vec<usize>)
    ensures
        r@ == selected(entries@, |e: SourceEntry| e.is_file && has_ext(e.name@, ext@)),
{
    let ghost keep = |e: SourceEntry| e.is_file && has_ext(e.name@, ext@);
    let x = chars_of(ext);
    let mut picks: Vec<usize> = Vec::new();
    let mut i: usize = 0;
    while i < entries.len()
        invariant
            i <= entries@.len(),
            x@ == ext@,
            keep == (|e: SourceEntry| e.is_file && has_ext(e.name@, ext@)),
            picks@ == picked_upto(entries@, keep, i as int),
        decreases entries.len() - i,
    {
        if entries[i].is_file {
            let name = chars_of(entries[i].name.as_str());
            if name_has_extension(&name, &x) {
                picks.push(i);
            }
        }
        i += 1;
    }
    proof {
        lemma_picked_in_range(entries@, keep, entries@.len() as int);
    }
    path_sorted(entries, &picks)
}

/// Entries whose extension is `pat` (ignoring ASCII case), in path order.
pub fn msts_pat_candidates(entries: &[SourceEntry]) -> (r: Vec<usize>)
    ensures
        r@ == selected(entries@, |e: SourceEntry| has_ext(e.name@, "pat"@)),
{
    let ghost keep = |e: SourceEntry| has_ext(e.name@, "pat"@);
    let x = chars_of("pat");
    let mut picks: Vec<usize> = Vec::new();
    let mut i: usize = 0;
    while i < entries.len()
        invariant
            i <= entries@.len(),
            x@ == "pat"@,
            keep == (|e: SourceEntry| has_ext(e.name@, "pat"@)),
            picks@ == picked_upto(entries@, keep, i as int),
        decreases entries.len() - i,
    {
        let name = chars_of(entries[i].name.as_str());
        if name_has_extension(&name, &x) {
            picks.push(i);
        }
        i += 1;
    }
    proof {
        lemma_picked_in_range(entries@, keep, entries@.len() as int);
    }
    path_sorted(entries, &picks)
}

/// `.csv` entries that read as BVE/OpenBVE routes, in path order.
pub fn bve_route_candidates(entries: &[SourceEntry]) -> (r: Vec<usize>)
    ensures
        r@ == selected(entries@, |e: SourceEntry| bve_route_hit(e)),
{
    let ghost keep = |e: SourceEntry| bve_route_hit(e);
    let mut picks: Vec<usize> = Vec::new();
    let mut i: usize = 0;
    while i < entries.len()
        invariant
            i <= entries@.len(),
            keep == (|e: SourceEntry| bve_route_hit(e)),
            picks@ == picked_upto(entries@, keep, i as int),
        decreases entries.len() - i,
    {
        if is_bve_route(&entries[i]) {
            picks.push(i);
        }
        i += 1;
    }
    proof {
        lemma_picked_in_range(entries@, keep, entries@.len() as int);
    }
    path_sorted(entries, &picks)
}

/// Regular files named `tsection.dat` (ignoring ASCII case), in path order.
pub fn tsection_candidates(entries: &[SourceEntry]) -> (r: Vec<usize>)
    ensures
        r@ == selected(
            entries@,
            |e: SourceEntry| e.is_file && eq_ignore_case(e.name@, "tsection.dat"@),
        ),
{
    let ghost keep = |e: SourceEntry| e.is_file && eq_ignore_case(e.name@, "tsection.dat"@);
    let target = chars_of("tsection.dat");
    let mut picks: Vec<usize> = Vec::new();
    let mut i: usize = 0;
    while i < entries.len()
        invariant
            i <= entries@.len(),
            target@ == "tsection.dat"@,
            keep == (|e: SourceEntry| e.is_file && eq_ignore_case(e.name@, "tsection.dat"@)),
            picks@ == picked_upto(entries@, keep, i as int),
        decreases entries.len() - i,
    {
        if entries[i].is_file {
            let name = chars_of(entries[i].name.as_str());
            if eq_ignore_ascii_case(&name, &target) {
                picks.push(i);
            }
        }
        i += 1;
    }
    proof {
        lemma_picked_in_range(entries@, keep, entries@.len() as int);
    }
    path_sorted(entries, &picks)
}

} // verus!
