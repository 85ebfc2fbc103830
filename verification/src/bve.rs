//! BVE/OpenBVE route-file syntax: quoted splitting and track commands.
use vstd::prelude::*;

use crate::text::{
    chars_of, has_prefix, has_suffix, is_whitespace, is_ws, lower_seq, lowercase, slice_range,
    slice_eq, starts_with, ends_with, string_of, trim, trimmed, views,
};

verus! {

/// The split state after the first `n` characters: finished fields, the
/// current field, and whether a quote is open.
pub open spec fn split_scan(s: Seq<char>, sep: char, n: int) -> (Seq<Seq<char>>, Seq<char>, bool)
    decreases n,
{
    if n <= 0 {
        (Seq::empty(), Seq::empty(), false)
    } else {
        let (done, current, quoted) = split_scan(s, sep, n - 1);
        let c = s[n - 1];
        if c == '"' {
            (done, current.push(c), !quoted)
        } else if c == sep && !quoted {
            (done.push(trim(current)), Seq::empty(), quoted)
        } else {
            (done, current.push(c), quoted)
        }
    }
}

/// The trimmed fields of `s` between separators outside double quotes (the
/// quotes stay in the fields).
pub open spec fn quoted_fields(s: Seq<char>, sep: char) -> Seq<Seq<char>> {
    let (done, current, _) = split_scan(s, sep, s.len() as int);
    done.push(trim(current))
}

/// Splits at `sep` outside double quotes, trimming each field.
pub fn split_quoted(input: &[char], separator: char) -> (r: Vec<Vec<char>>)
    ensures
        views(r@) == quoted_fields(input@, separator),
{
    let mut output: Vec<Vec<char>> = Vec::new();
    let mut current: Vec<char> = Vec::new();
    let mut quoted = false;
    let mut i: usize = 0;
    while i < input.len()
        invariant
            i <= input@.len(),
            (views(output@), current@, quoted) == split_scan(input@, separator, i as int),
        decreases input.len() - i,
    {
        let c = input[i];
        if c == '"' {
            quoted = !quoted;
            current.push(c);
        } else if c == separator && !quoted {
            let t = trimmed(&current);
            let ghost before = views(output@);
            output.push(t);
            assert(views(output@) =~= before.push(t@));
            current = Vec::new();
        } else {
            current.push(c);
        }
        i += 1;
    }
    let t = trimmed(&current);
    let ghost before = views(output@);
    output.push(t);
    assert(views(output@) =~= before.push(t@));
    output
}

/// `s` without the leading copies of `c`.
pub open spec fn strip_leading(s: Seq<char>, c: char) -> Seq<char>
    decreases s.len(),
{
    if s.len() > 0 && s[0] == c {
        strip_leading(s.drop_first(), c)
    } else {
        s
    }
}

/// `s` without the trailing copies of `c`.
pub open spec fn strip_trailing(s: Seq<char>, c: char) -> Seq<char>
    decreases s.len(),
{
    if s.len() > 0 && s.last() == c {
        strip_trailing(s.drop_last(), c)
    } else {
        s
    }
}

/// `str::trim_matches` with one character.
pub open spec fn trim_char(s: Seq<char>, c: char) -> Seq<char> {
    strip_trailing(strip_leading(s, c), c)
}

/// A character that ends a command name.
pub open spec fn name_stop(c: char) -> bool {
    is_ws(c) || c == '=' || c == '('
}

/// The first index at or after `i` whose character ends a command name, or the length.
pub open spec fn name_end(s: Seq<char>, i: int) -> int
    decreases s.len() - i,
{
    if i >= s.len() {
        s.len() as int
    } else if name_stop(s[i]) {
        i
    } else {
        name_end(s, i + 1)
    }
}

/// A track command: its lowercased name and its arguments.
#[derive(Debug)]
pub struct Command {
    pub name: String,
    pub args: Vec<String>,
}

/// The text after a command's name, without `=` and enclosing parentheses.
pub open spec fn command_arguments(rest: Seq<char>) -> Seq<char> {
    let r = trim(rest);
    let r = if starts_with(r, "="@) {
        trim(r.skip(1))
    } else {
        r
    };
    if starts_with(r, "("@) && ends_with(r, ")"@) && r.len() >= 2 {
        r.subrange(1, r.len() - 1)
    } else {
        r
    }
}

/// What an expression of a route file says as a track command: `Track.Name
/// args`, or `.Name args` inside a `With Track` section; arguments are split at
/// `;` outside quotes, with their quotes and whitespace trimmed.
pub open spec fn track_command(expression: Seq<char>, namespace_track: bool) -> Option<(Seq<char>, Seq<Seq<char>>)> {
    let e = trim(expression);
    let lower = lower_seq(e);
    if e.len() == 0 {
        None
    } else if !(starts_with(lower, "track."@) || (namespace_track && starts_with(lower, "."@))) {
        None
    } else {
        let w = if starts_with(lower, "track."@) {
            e.skip(6)
        } else {
            strip_leading(e, '.')
        };
        let split = name_end(w, 0);
        let fields = quoted_fields(command_arguments(w.skip(split)), ';');
        Some(
            (
                lower_seq(trim(w.take(split))),
                Seq::new(fields.len(), |k: int| trim(trim_char(fields[k], '"'))),
            ),
        )
    }
}

fn strip_leading_char(s: &[char], c: char) -> (r: Vec<char>)
    ensures
        r@ == strip_leading(s@, c),
{
    let mut i: usize = 0;
    assert(s@.skip(0) =~= s@);
    while i < s.len() && s[i] == c
        invariant
            i <= s@.len(),
            strip_leading(s@, c) == strip_leading(s@.skip(i as int), c),
        decreases s.len() - i,
    {
        assert(s@.skip(i as int).drop_first() =~= s@.skip(i + 1));
        i += 1;
    }
    let r = slice_range(s, i, s.len());
    assert(r@ =~= s@.skip(i as int));
    r
}

fn trim_char_exec(s: &[char], c: char) -> (r: Vec<char>)
    ensures
        r@ == trim_char(s@, c),
{
    let t = strip_leading_char(s, c);
    let mut end = t.len();
    assert(t@.take(end as int) =~= t@);
    while end > 0 && t[end - 1] == c
        invariant
            end <= t@.len(),
            strip_trailing(t@, c) == strip_trailing(t@.take(end as int), c),
        decreases end,
    {
        assert(t@.take(end as int).drop_last() =~= t@.take(end - 1));
        end -= 1;
    }
    slice_range(&t, 0, end)
}

fn arguments_of(rest: &[char]) -> (r: Vec<char>)
    ensures
        r@ == command_arguments(rest@),
{
    proof {
        reveal_strlit("=");
        reveal_strlit("(");
        reveal_strlit(")");
    }
    let r0 = trimmed(rest);
    let r1 = if r0.len() > 0 && r0[0] == '=' {
        assert(starts_with(r0@, "="@)) by {
            assert(r0@.take(1) =~= "="@);
        }
        let t = slice_range(&r0, 1, r0.len());
        assert(t@ =~= r0@.skip(1));
        trimmed(&t)
    } else {
        assert(!starts_with(r0@, "="@)) by {
            if starts_with(r0@, "="@) {
                assert(r0@.take(1)[0] == '=');
            }
        }
        r0
    };
    if r1.len() >= 2 && r1[0] == '(' && r1[r1.len() - 1] == ')' {
        assert(starts_with(r1@, "("@)) by {
            assert(r1@.take(1) =~= "("@);
        }
        assert(ends_with(r1@, ")"@)) by {
            assert(r1@.skip(r1@.len() - 1) =~= ")"@);
        }
        slice_range(&r1, 1, r1.len() - 1)
    } else {
        assert(!(starts_with(r1@, "("@) && ends_with(r1@, ")"@) && r1@.len() >= 2)) by {
            if starts_with(r1@, "("@) && ends_with(r1@, ")"@) && r1@.len() >= 2 {
                assert(r1@.take(1)[0] == '(');
                assert(r1@.skip(r1@.len() - 1)[0] == ')');
            }
        }
        r1
    }
}

/// Reads one comma-separated expression of a route file as a track command.
pub fn parse_command(expression: &[char], namespace_track: bool) -> (r: Option<Command>)
    ensures
        match r {
            Some(c) => track_command(expression@, namespace_track) == Some(
                (c.name@, c.args@.map_values(|a: String| a@)),
            ),
            None => track_command(expression@, namespace_track) is None,
        },
{
    let e = trimmed(expression);
    if e.len() == 0 {
        return None;
    }
    let lower = lowercase(&e);
    let track = has_prefix(&lower, &chars_of("track."));
    let dotted = has_prefix(&lower, &chars_of("."));
    if !(track || (namespace_track && dotted)) {
        return None;
    }
    let w = if track {
        proof {
            reveal_strlit("track.");
        }
        assert(lower@.len() == e@.len());
        slice_range(&e, 6, e.len())
    } else {
        strip_leading_char(&e, '.')
    };
    assert(track ==> w@ =~= e@.skip(6));
    let mut split: usize = 0;
    while split < w.len() && !(is_whitespace(w[split]) || w[split] == '=' || w[split] == '(')
        invariant
            split <= w@.len(),
            name_end(w@, 0) == name_end(w@, split as int),
        decreases w.len() - split,
    {
        split += 1;
    }
    let head = slice_range(&w, 0, split);
    assert(head@ =~= w@.take(split as int));
    let name = lowercase(&trimmed(&head));
    let rest = slice_range(&w, split, w.len());
    assert(rest@ =~= w@.skip(split as int));
    let arguments = arguments_of(&rest);
    let fields = split_quoted(&arguments, ';');
    let mut args: Vec<String> = Vec::new();
    let mut k: usize = 0;
    while k < fields.len()
        invariant
            k <= fields@.len(),
            args@.map_values(|a: String| a@) == Seq::new(
                k as nat,
                |q: int| trim(trim_char(views(fields@)[q], '"')),
            ),
        decreases fields.len() - k,
    {
        let a = trimmed(&trim_char_exec(&fields[k], '"'));
        let ghost before = args@;
        let text = string_of(&a);
        args.push(text);
        assert(views(fields@)[k as int] == fields@[k as int]@);
        assert(args@.map_values(|a: String| a@) =~= before.map_values(|a: String| a@).push(text@));
        assert(args@.map_values(|a: String| a@) =~= Seq::new(
            (k + 1) as nat,
            |q: int| trim(trim_char(views(fields@)[q], '"')),
        ));
        k += 1;
    }
    Some(Command { name: string_of(&name), args })
}

/// What one line of a route file says.
pub enum LineView {
    Skip,
    Namespace(bool),
    Expressions(Seq<Seq<char>>),
}

/// A line is read trimmed and without leading byte order marks: an empty
/// line or one starting with `;` or `'` is a comment; `With Track` opens the
/// track namespace and any other `With ...` line closes it; any other line
/// holds comma-separated expressions (commas inside quotes do not split).
pub open spec fn route_line_view(raw: Seq<char>) -> LineView {
    let line = strip_leading(trim(raw), '\u{feff}');
    let lower = lower_seq(line);
    if line.len() == 0 || line[0] == ';' || line[0] == '\'' {
        LineView::Skip
    } else if lower == "with track"@ {
        LineView::Namespace(true)
    } else if starts_with(lower, "with "@) {
        LineView::Namespace(false)
    } else {
        LineView::Expressions(quoted_fields(line, ','))
    }
}

/// One line of a route file.
#[derive(Debug)]
pub enum RouteLine {
    /// A blank or comment line.
    Skip,
    /// A `With` line: whether it opens the `Track` namespace.
    Namespace(bool),
    /// The expressions of any other line.
    Expressions(Vec<Vec<char>>),
}

impl RouteLine {
    pub open spec fn view(&self) -> LineView {
        match self {
            RouteLine::Skip => LineView::Skip,
            RouteLine::Namespace(track) => LineView::Namespace(*track),
            RouteLine::Expressions(e) => LineView::Expressions(views(e@)),
        }
    }
}

/// Reads one line of a route file.
pub fn route_line(raw: &[char]) -> (r: RouteLine)
    ensures
        r.view() == route_line_view(raw@),
{
    let t = trimmed(raw);
    let line = strip_leading_char(&t, '\u{feff}');
    if line.len() == 0 || line[0] == ';' || line[0] == '\'' {
        return RouteLine::Skip;
    }
    let lower = lowercase(&line);
    if slice_eq(&lower, &chars_of("with track")) {
        return RouteLine::Namespace(true);
    }
    if has_prefix(&lower, &chars_of("with ")) {
        return RouteLine::Namespace(false);
    }
    RouteLine::Expressions(split_quoted(&line, ','))
}

} // verus!
