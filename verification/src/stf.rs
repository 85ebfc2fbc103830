//! The Kuju "STF" text structure of MSTS files: tokens, parenthesised blocks,
//! and the integers written in them.
use vstd::prelude::*;

use crate::text::{eq_ignore_ascii_case, eq_ignore_case, is_digit, is_whitespace, is_ws, slice_range};

verus! {

/// A character that ends a bare word: whitespace or a parenthesis.
pub open spec fn word_stop(c: char) -> bool {
    is_ws(c) || c == '(' || c == ')'
}

/// The first index at or after `i` whose character ends a word, or the length.
pub open spec fn word_end(s: Seq<char>, i: int) -> int
    decreases s.len() - i,
{
    if i >= s.len() {
        s.len() as int
    } else if word_stop(s[i]) {
        i
    } else {
        word_end(s, i + 1)
    }
}

/// The first index at or after `i` holding a double quote, or the length.
pub open spec fn quote_end(s: Seq<char>, i: int) -> int
    decreases s.len() - i,
{
    if i >= s.len() {
        s.len() as int
    } else if s[i] == '"' {
        i
    } else {
        quote_end(s, i + 1)
    }
}

pub proof fn lemma_word_end(s: Seq<char>, i: int)
    requires
        0 <= i <= s.len(),
    ensures
        i <= word_end(s, i) <= s.len(),
    decreases s.len() - i,
{
    if i < s.len() && !word_stop(s[i]) {
        lemma_word_end(s, i + 1);
    }
}

pub proof fn lemma_quote_end(s: Seq<char>, i: int)
    requires
        0 <= i <= s.len(),
    ensures
        i <= quote_end(s, i) <= s.len(),
    decreases s.len() - i,
{
    if i < s.len() && s[i] != '"' {
        lemma_quote_end(s, i + 1);
    }
}

/// The tokens of `s` from index `i` on: whitespace separates; each parenthesis
/// is a token of its own; a double-quoted string is one token without its
/// quotes (an unclosed one runs to the end); any other run of characters up to
/// whitespace or a parenthesis is one token.
pub open spec fn tokens_from(s: Seq<char>, i: int) -> Seq<Seq<char>>
    decreases s.len() + 1 - i,
{
    if i < 0 || i >= s.len() {
        Seq::empty()
    } else if is_ws(s[i]) {
        tokens_from(s, i + 1)
    } else if s[i] == '(' || s[i] == ')' {
        seq![seq![s[i]]] + tokens_from(s, i + 1)
    } else if s[i] == '"' {
        let j = quote_end(s, i + 1);
        proof {
            lemma_quote_end(s, i + 1);
        }
        seq![s.subrange(i + 1, j)] + tokens_from(s, j + 1)
    } else {
        let j = word_end(s, i + 1);
        proof {
            lemma_word_end(s, i + 1);
        }
        seq![s.subrange(i, j)] + tokens_from(s, j)
    }
}

/// The tokens of a whole text.
pub open spec fn stf_token_seq(s: Seq<char>) -> Seq<Seq<char>> {
    tokens_from(s, 0)
}

pub open spec fn token_views(t: Seq<Vec<char>>) -> Seq<Seq<char>> {
    t.map_values(|v: Vec<char>| v@)
}

/// Splits STF text into tokens.
pub fn stf_tokens(text: &[char]) -> (r: Vec<Vec<char>>)
    ensures
        token_views(r@) == stf_token_seq(text@),
{
    let ghost s = text@;
    let mut tokens: Vec<Vec<char>> = Vec::new();
    let mut i: usize = 0;
    assert(token_views(tokens@) + tokens_from(s, 0) =~= stf_token_seq(s));
    while i < text.len()
        invariant
            s == text@,
            i <= s.len(),
            token_views(tokens@) + tokens_from(s, i as int) == stf_token_seq(s),
        decreases text.len() - i,
    {
        let ghost before = token_views(tokens@);
        let c = text[i];
        if is_whitespace(c) {
            i += 1;
        } else if c == '(' || c == ')' {
            let mut t: Vec<char> = Vec::new();
            t.push(c);
            tokens.push(t);
            assert(token_views(tokens@) =~= before.push(seq![c]));
            assert(before + tokens_from(s, i as int) =~= before.push(seq![c]) + tokens_from(
                s,
                i + 1,
            ));
            i += 1;
        } else if c == '"' {
            let mut j = i + 1;
            while j < text.len() && text[j] != '"'
                invariant
                    i < j <= s.len(),
                    s == text@,
                    quote_end(s, i + 1) == quote_end(s, j as int),
                decreases text.len() - j,
            {
                j += 1;
            }
            let t = slice_range(text, i + 1, j);
            tokens.push(t);
            assert(token_views(tokens@) =~= before.push(s.subrange(i + 1, j as int)));
            assert(before + tokens_from(s, i as int) =~= before.push(s.subrange(i + 1, j as int))
                + tokens_from(s, j + 1));
            i = if j < text.len() {
                j + 1
            } else {
                j
            };
        } else {
            let mut j = i + 1;
            while j < text.len() && !(is_whitespace(text[j]) || text[j] == '(' || text[j] == ')')
                invariant
                    i < j <= s.len(),
                    s == text@,
                    word_end(s, i + 1) == word_end(s, j as int),
                decreases text.len() - j,
            {
                j += 1;
            }
            let t = slice_range(text, i, j);
            tokens.push(t);
            assert(token_views(tokens@) =~= before.push(s.subrange(i as int, j as int)));
            assert(before + tokens_from(s, i as int) =~= before.push(s.subrange(i as int, j as int))
                + tokens_from(s, j as int));
            i = j;
        }
    }
    assert(token_views(tokens@) + tokens_from(s, i as int) =~= token_views(tokens@));
    tokens
}

/// Scanning from `i` at nesting `depth`: the index of the `)` that brings the
/// depth back to zero.
pub open spec fn close_from(t: Seq<Seq<char>>, i: int, depth: int) -> Option<int>
    decreases t.len() - i,
{
    if i < 0 || i >= t.len() {
        None
    } else if t[i] == "("@ {
        close_from(t, i + 1, depth + 1)
    } else if t[i] == ")"@ {
        if depth <= 0 {
            None
        } else if depth == 1 {
            Some(i)
        } else {
            close_from(t, i + 1, depth - 1)
        }
    } else {
        close_from(t, i + 1, depth)
    }
}

/// The index of the `)` that closes the `(` at `open`.
pub open spec fn matching(t: Seq<Seq<char>>, open: int) -> Option<int> {
    if 0 <= open < t.len() && t[open] == "("@ {
        close_from(t, open, 0)
    } else {
        None
    }
}

pub proof fn lemma_close_from(t: Seq<Seq<char>>, i: int, depth: int)
    ensures
        close_from(t, i, depth) matches Some(c) ==> i <= c < t.len() && t[c] == ")"@,
    decreases t.len() - i,
{
    if 0 <= i < t.len() {
        if t[i] == "("@ {
            lemma_close_from(t, i + 1, depth + 1);
        } else if t[i] == ")"@ {
            if depth > 1 {
                lemma_close_from(t, i + 1, depth - 1);
            }
        } else {
            lemma_close_from(t, i + 1, depth);
        }
    }
}

/// A matched `)` comes after its `(`.
pub proof fn lemma_matching(t: Seq<Seq<char>>, open: int)
    ensures
        matching(t, open) matches Some(c) ==> 0 <= open < c < t.len() && t[c] == ")"@,
{
    lemma_close_from(t, open, 0);
    if let Some(c) = matching(t, open) {
        assert(t[open] != t[c]) by {
            reveal_strlit("(");
            reveal_strlit(")");
            assert(t[open][0] != t[c][0]);
        }
    }
}

fn is_open(t: &Vec<char>) -> (r: bool)
    ensures
        r == (t@ == "("@),
{
    proof {
        reveal_strlit("(");
    }
    let r = t.len() == 1 && t[0] == '(';
    if r {
        assert(t@ =~= "("@);
    }
    r
}

fn is_close(t: &Vec<char>) -> (r: bool)
    ensures
        r == (t@ == ")"@),
{
    proof {
        reveal_strlit(")");
    }
    let r = t.len() == 1 && t[0] == ')';
    if r {
        assert(t@ =~= ")"@);
    }
    r
}

/// The index of the `)` that closes the `(` at `open`, if there is one.
pub fn matching_paren(tokens: &[Vec<char>], open: usize) -> (r: Option<usize>)
    ensures
        r matches Some(c) ==> matching(token_views(tokens@), open as int) == Some(c as int),
        r is None ==> matching(token_views(tokens@), open as int) is None,
{
    let ghost t = token_views(tokens@);
    if open >= tokens.len() || !is_open(&tokens[open]) {
        return None;
    }
    assert(t[open as int] == tokens@[open as int]@);
    let mut depth: usize = 0;
    let mut i = open;
    while i < tokens.len()
        invariant
            t == token_views(tokens@),
            open <= i <= tokens@.len(),
            open < tokens@.len(),
            t[open as int] == "("@,
            depth <= i - open,
            close_from(t, open as int, 0) == close_from(t, i as int, depth as int),
        decreases tokens.len() - i,
    {
        assert(t[i as int] == tokens@[i as int]@);
        if is_open(&tokens[i]) {
            depth += 1;
        } else if is_close(&tokens[i]) {
            if depth == 0 {
                return None;
            }
            depth -= 1;
            if depth == 0 {
                assert(t[i as int] != "("@) by {
                    reveal_strlit("(");
                    reveal_strlit(")");
                    assert(t[i as int][0] != "("@[0]);
                }
                return Some(i);
            }
        }
        i += 1;
    }
    None
}

/// The first header token equal to `name` (ignoring ASCII case) at or after `i`
/// that is followed by `(`: the block's `(` and its closing `)`. A header
/// whose block does not close ends the search.
pub open spec fn block_from(t: Seq<Seq<char>>, name: Seq<char>, i: int) -> Option<(int, int)>
    decreases t.len() - i,
{
    if i < 0 || i + 1 >= t.len() {
        None
    } else if eq_ignore_case(t[i], name) && t[i + 1] == "("@ {
        match matching(t, i + 1) {
            Some(c) => Some((i + 1, c)),
            None => None,
        }
    } else {
        block_from(t, name, i + 1)
    }
}

/// The first block named `name`.
pub open spec fn block(t: Seq<Seq<char>>, name: Seq<char>) -> Option<(int, int)> {
    block_from(t, name, 0)
}

pub proof fn lemma_block_from(t: Seq<Seq<char>>, name: Seq<char>, i: int)
    ensures
        block_from(t, name, i) matches Some((o, c)) ==> 0 <= o < c < t.len() && t[o] == "("@
            && t[c] == ")"@ && matching(t, o) == Some(c),
    decreases t.len() - i,
{
    if 0 <= i && i + 1 < t.len() {
        if eq_ignore_case(t[i], name) && t[i + 1] == "("@ {
            lemma_close_from(t, i + 1, 0);
            if let Some(c) = matching(t, i + 1) {
                assert(t[i + 1] != t[c]) by {
                    reveal_strlit("(");
                    reveal_strlit(")");
                    assert(t[i + 1][0] != t[c][0]);
                }
            }
        } else {
            lemma_block_from(t, name, i + 1);
        }
    }
}

/// The `(` and `)` of the first block named `name`.
pub fn find_block(tokens: &[Vec<char>], name: &[char]) -> (r: Option<(usize, usize)>)
    ensures
        r matches Some((o, c)) ==> block(token_views(tokens@), name@) == Some((o as int, c as int)),
        r is None ==> block(token_views(tokens@), name@) is None,
{
    let ghost t = token_views(tokens@);
    let mut index: usize = 0;
    while index < tokens.len() && index + 1 < tokens.len()
        invariant
            t == token_views(tokens@),
            block(t, name@) == block_from(t, name@, index as int),
        decreases tokens.len() - index,
    {
        assert(t[index as int] == tokens@[index as int]@);
        if eq_ignore_ascii_case(&tokens[index], name) && is_open(&tokens[index + 1]) {
            let open = index + 1;
            return match matching_paren(tokens, open) {
                Some(close) => Some((open, close)),
                None => None,
            };
        }
        index += 1;
    }
    None
}

/// The value of a run of decimal digits.
pub open spec fn digits_value(s: Seq<char>) -> int
    decreases s.len(),
{
    if s.len() == 0 {
        0
    } else {
        digits_value(s.drop_last()) * 10 + (s.last() as int - '0' as int)
    }
}

pub open spec fn all_digits(s: Seq<char>) -> bool {
    forall|k: int| 0 <= k < s.len() ==> is_digit(#[trigger] s[k])
}

/// The integer a text spells: an optional `+` (or, where `signed`, `-`) and at
/// least one decimal digit, nothing else (the grammar of `str::parse` for
/// integers).
pub open spec fn integer_text(s: Seq<char>, signed: bool) -> Option<int> {
    if s.len() > 0 && (s[0] == '+' || (signed && s[0] == '-')) {
        let d = s.skip(1);
        if d.len() > 0 && all_digits(d) {
            Some(if s[0] == '-' { -digits_value(d) } else { digits_value(d) })
        } else {
            None
        }
    } else if s.len() > 0 && all_digits(s) {
        Some(digits_value(s))
    } else {
        None
    }
}

/// `str::parse::<i32>`: the value where the text is an integer in range.
pub open spec fn i32_text(s: Seq<char>) -> Option<i32> {
    match integer_text(s, true) {
        Some(v) => if i32::MIN <= v <= i32::MAX {
            Some(v as i32)
        } else {
            None
        },
        None => None,
    }
}

/// `str::parse::<u32>`: the value where the text is an integer in range.
pub open spec fn u32_text(s: Seq<char>) -> Option<u32> {
    match integer_text(s, false) {
        Some(v) => if 0 <= v <= u32::MAX {
            Some(v as u32)
        } else {
            None
        },
        None => None,
    }
}

proof fn lemma_digits_grow(s: Seq<char>, k: int)
    requires
        all_digits(s),
        0 <= k <= s.len(),
    ensures
        digits_value(s) >= digits_value(s.take(k)) >= 0,
    decreases s.len(),
{
    if s.len() > 0 {
        assert(all_digits(s.drop_last()));
        if k < s.len() {
            lemma_digits_grow(s.drop_last(), k);
            assert(s.drop_last().take(k) =~= s.take(k));
        } else {
            lemma_digits_grow(s.drop_last(), s.len() - 1);
            assert(s.take(k) =~= s);
        }
    }
}

/// Reads the digits `s[start..]`, giving up once the value exceeds `limit`.
fn digits_upto(s: &[char], start: usize, limit: u64) -> (r: Option<u64>)
    requires
        start <= s.len(),
    ensures
        r matches Some(v) ==> all_digits(s@.skip(start as int)) && v == digits_value(
            s@.skip(start as int),
        ) && v <= limit,
        r is None ==> !all_digits(s@.skip(start as int)) || digits_value(s@.skip(start as int))
            > limit,
{
    let ghost d = s@.skip(start as int);
    let mut v: u128 = 0;
    let mut i = start;
    while i < s.len()
        invariant
            start <= i <= s.len(),
            d == s@.skip(start as int),
            all_digits(d.take(i - start)),
            v == digits_value(d.take(i - start)),
            v <= limit,
        decreases s.len() - i,
    {
        let c = s[i];
        if !('0' <= c && c <= '9') {
            assert(d[i - start] == c);
            return None;
        }
        assert(d.take(i - start + 1).drop_last() =~= d.take(i - start));
        let digit = (c as u32 - '0' as u32) as u128;
        let next = v * 10 + digit;
        i += 1;
        if next > limit as u128 {
            proof {
                if all_digits(d) {
                    lemma_digits_grow(d, i - start);
                }
            }
            return None;
        }
        v = next;
    }
    assert(d.take(i - start) =~= d);
    Some(v as u64)
}

/// Parses an `i32` as `str::parse` does.
pub fn parse_i32(s: &[char]) -> (r: Option<i32>)
    ensures
        r == i32_text(s@),
{
    if s.len() == 0 {
        return None;
    }
    let signed = s[0] == '+' || s[0] == '-';
    if signed {
        if s.len() == 1 {
            return None;
        }
        let negative = s[0] == '-';
        let limit: u64 = if negative {
            0x8000_0000
        } else {
            0x7fff_ffff
        };
        match digits_upto(s, 1, limit) {
            Some(v) => {
                if negative {
                    Some((0 - (v as i64)) as i32)
                } else {
                    Some(v as i32)
                }
            },
            None => None,
        }
    } else {
        assert(s@.skip(0) =~= s@);
        match digits_upto(s, 0, 0x7fff_ffff) {
            Some(v) => Some(v as i32),
            None => None,
        }
    }
}

/// `str::parse::<usize>`: the value where the text is an integer in range.
pub open spec fn usize_text(s: Seq<char>) -> Option<usize> {
    match integer_text(s, false) {
        Some(v) => if 0 <= v <= usize::MAX {
            Some(v as usize)
        } else {
            None
        },
        None => None,
    }
}

/// Parses a `usize` as `str::parse` does.
pub fn parse_usize(s: &[char]) -> (r: Option<usize>)
    ensures
        r == usize_text(s@),
{
    if s.len() == 0 {
        return None;
    }
    let start: usize = if s[0] == '+' {
        1
    } else {
        0
    };
    if start == 1 && s.len() == 1 {
        return None;
    }
    if start == 0 {
        assert(s@.skip(0) =~= s@);
        if s[0] == '-' {
            assert(!is_digit(s@[0]));
            assert(!all_digits(s@));
        }
    }
    match digits_upto(s, start, usize::MAX as u64) {
        Some(v) => Some(v as usize),
        None => None,
    }
}

/// Parses a `u32` as `str::parse` does.
pub fn parse_u32(s: &[char]) -> (r: Option<u32>)
    ensures
        r == u32_text(s@),
{
    if s.len() == 0 {
        return None;
    }
    if s[0] == '+' {
        if s.len() == 1 {
            return None;
        }
        match digits_upto(s, 1, 0xffff_ffff) {
            Some(v) => Some(v as u32),
            None => None,
        }
    } else {
        assert(s@.skip(0) =~= s@);
        if s[0] == '-' {
            assert(!is_digit(s@[0]));
            assert(!all_digits(s@));
        }
        match digits_upto(s, 0, 0xffff_ffff) {
            Some(v) => Some(v as u32),
            None => None,
        }
    }
}

} // verus!
