//! Entries of a scanned source tree, their names, and their order.
use vstd::prelude::*;

use crate::keymap::{compare_chars, lemma_lex_asymmetric, lemma_lex_irreflexive, lemma_lex_total, lemma_lex_transitive, lex_lt, KeyOrder};
use crate::text::{chars_of, eq_ignore_case, eq_ignore_ascii_case};

verus! {

/// One file or directory found under a source root.
#[derive(Debug)]
pub struct SourceEntry {
    /// The path's components, as `Path::components` yields them.
    pub components: Vec<String>,
    /// The final name (`Path::file_name`), empty when there is none.
    pub name: String,
    pub is_file: bool,
    pub is_dir: bool,
    /// The first bytes of the file, where `prefix_request` asked for them.
    pub head: Option<Vec<u8>>,
}

pub open spec fn components_view(c: Seq<String>) -> Seq<Seq<char>> {
    c.map_values(|s: String| s@)
}

/// Path order: components compared one by one, a proper prefix first
/// (the order of `Path`'s `Ord`).
pub open spec fn path_lt(a: Seq<Seq<char>>, b: Seq<Seq<char>>) -> bool
    decreases a.len(),
{
    if a.len() == 0 {
        b.len() > 0
    } else if b.len() == 0 {
        false
    } else if lex_lt(a[0], b[0]) {
        true
    } else if a[0] == b[0] {
        path_lt(a.drop_first(), b.drop_first())
    } else {
        false
    }
}

pub proof fn lemma_path_asymmetric(a: Seq<Seq<char>>, b: Seq<Seq<char>>)
    ensures
        !(path_lt(a, b) && path_lt(b, a)),
    decreases a.len(),
{
    if a.len() > 0 && b.len() > 0 {
        lemma_lex_asymmetric(a[0], b[0]);
        lemma_lex_irreflexive(a[0]);
        if a[0] == b[0] {
            lemma_path_asymmetric(a.drop_first(), b.drop_first());
        }
    }
}

pub proof fn lemma_path_transitive(a: Seq<Seq<char>>, b: Seq<Seq<char>>, c: Seq<Seq<char>>)
    requires
        path_lt(a, b),
        path_lt(b, c),
    ensures
        path_lt(a, c),
    decreases a.len(),
{
    if a.len() > 0 && b.len() > 0 && c.len() > 0 {
        lemma_lex_irreflexive(a[0]);
        lemma_lex_irreflexive(b[0]);
        if lex_lt(a[0], b[0]) && lex_lt(b[0], c[0]) {
            lemma_lex_transitive(a[0], b[0], c[0]);
        } else if a[0] == b[0] && b[0] == c[0] {
            lemma_path_transitive(a.drop_first(), b.drop_first(), c.drop_first());
        }
    }
}

pub proof fn lemma_path_total(a: Seq<Seq<char>>, b: Seq<Seq<char>>)
    ensures
        a == b || path_lt(a, b) || path_lt(b, a),
    decreases a.len(),
{
    if a.len() > 0 && b.len() > 0 {
        lemma_lex_total(a[0], b[0]);
        if a[0] == b[0] {
            lemma_path_total(a.drop_first(), b.drop_first());
            if a.drop_first() == b.drop_first() {
                assert(a =~= seq![a[0]] + a.drop_first());
                assert(b =~= seq![b[0]] + b.drop_first());
            }
        }
    } else if a.len() == 0 && b.len() == 0 {
        assert(a =~= b);
    }
}

/// Whether path `a` orders strictly before path `b`.
pub fn path_before(a: &Vec<String>, b: &Vec<String>) -> (r: bool)
    ensures
        r == path_lt(components_view(a@), components_view(b@)),
{
    let ghost av = components_view(a@);
    let ghost bv = components_view(b@);
    let mut i: usize = 0;
    assert(av.skip(0) =~= av);
    assert(bv.skip(0) =~= bv);
    while i < a.len() && i < b.len()
        invariant
            i <= a@.len(),
            i <= b@.len(),
            av == components_view(a@),
            bv == components_view(b@),
            path_lt(av, bv) == path_lt(av.skip(i as int), bv.skip(i as int)),
        decreases a.len() - i,
    {
        let x = chars_of(a[i].as_str());
        let y = chars_of(b[i].as_str());
        assert(av.skip(i as int)[0] == x@);
        assert(bv.skip(i as int)[0] == y@);
        match compare_chars(&x, &y) {
            KeyOrder::Less => {
                return true;
            },
            KeyOrder::Greater => {
                proof {
                    lemma_lex_asymmetric(x@, y@);
                    lemma_lex_irreflexive(x@);
                }
                return false;
            },
            KeyOrder::Equal => {
                proof {
                    lemma_lex_irreflexive(x@);
                }
                assert(av.skip(i as int).drop_first() =~= av.skip(i + 1));
                assert(bv.skip(i as int).drop_first() =~= bv.skip(i + 1));
            },
        }
        i += 1;
    }
    i == a.len() && i < b.len()
}

/// The extension of a file name (`Path::extension`): the text after the last
/// dot, unless there is no dot, the only dot leads the name, or the name is `..`.
pub open spec fn extension_of(name: Seq<char>) -> Option<Seq<char>> {
    let d = last_dot(name, name.len() as int);
    if name == ".."@ || d <= 0 {
        None
    } else {
        Some(name.skip(d + 1))
    }
}

/// Index of the last dot before `end`, or -1.
pub open spec fn last_dot(name: Seq<char>, end: int) -> int
    decreases end,
{
    if end <= 0 || end > name.len() {
        -1
    } else if name[end - 1] == '.' {
        end - 1
    } else {
        last_dot(name, end - 1)
    }
}

proof fn lemma_last_dot(name: Seq<char>, end: int)
    requires
        0 <= end <= name.len(),
    ensures
        -1 <= last_dot(name, end) < end,
    decreases end,
{
    if end > 0 && name[end - 1] != '.' {
        lemma_last_dot(name, end - 1);
    }
}

/// Whether the name has extension `ext`, compared without ASCII case.
pub open spec fn has_ext(name: Seq<char>, ext: Seq<char>) -> bool {
    match extension_of(name) {
        Some(e) => eq_ignore_case(e, ext),
        None => false,
    }
}

/// The extension of a file name (see `extension_of`).
pub fn extension(name: &[char]) -> (r: Option<Vec<char>>)
    ensures
        match r {
            Some(e) => extension_of(name@) == Some(e@),
            None => extension_of(name@) is None,
        },
{
    if name.len() == 2 && name[0] == '.' && name[1] == '.' {
        assert(name@ =~= ".."@) by {
            reveal_strlit("..");
        }
        return None;
    }
    let mut end = name.len();
    while end > 0 && name[end - 1] != '.'
        invariant
            end <= name@.len(),
            last_dot(name@, name@.len() as int) == last_dot(name@, end as int),
        decreases end,
    {
        end -= 1;
    }
    proof {
        lemma_last_dot(name@, name@.len() as int);
        if name@.len() != 2 || name@[0] != '.' || name@[1] != '.' {
            reveal_strlit("..");
            assert(name@ != ".."@);
        }
    }
    if end <= 1 {
        return None;
    }
    let mut e: Vec<char> = Vec::new();
    let mut i = end;
    while i < name.len()
        invariant
            end <= i <= name@.len(),
            e@ == name@.subrange(end as int, i as int),
        decreases name@.len() - i,
    {
        e.push(name[i]);
        assert(name@.subrange(end as int, i + 1) =~= e@);
        i += 1;
    }
    assert(e@ =~= name@.skip(end as int));
    Some(e)
}


pub fn name_has_extension(name: &[char], ext: &[char]) -> (r: bool)
    ensures
        r == has_ext(name@, ext@),
{
    match extension(name) {
        Some(e) => eq_ignore_ascii_case(&e, ext),
        None => false,
    }
}

} // verus!
