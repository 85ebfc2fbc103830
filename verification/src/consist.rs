//! MSTS consist (`.con`) files: the ordered engines and wagons of a train.
use vstd::prelude::*;

use crate::stf::{
    block, find_block, i32_text, lemma_block_from, lemma_close_from, lemma_matching, matching,
    matching_paren,
    parse_i32, stf_token_seq, stf_tokens, token_views,
};
use crate::model::{
    asset_views, diagnostic_views, id_after, AssetKind, AssetRef, AssetView, Diagnostic, DiagnosticView,
    Provenance, ProvenanceView, Severity, SourceFormat,
};
use crate::paths::{has_ext, name_has_extension};
use crate::text::{
    chars_of, decimal, eq_ignore_ascii_case, eq_ignore_case, push_number, push_signed, push_str,
    signed_decimal, slice_range, string_of,
};

verus! {

/// One engine or wagon of a consist, in train order.
#[derive(Debug)]
pub struct ConsistMember {
    /// The vehicle's file name without extension.
    pub name: String,
    /// The folder under `TRAINS/TRAINSET` that holds it.
    pub folder: String,
    pub is_engine: bool,
    /// Whether the vehicle runs reversed.
    pub flipped: bool,
    pub uid: Option<i32>,
}

pub struct MemberView {
    pub name: Seq<char>,
    pub folder: Seq<char>,
    pub is_engine: bool,
    pub flipped: bool,
    pub uid: Option<i32>,
}

impl ConsistMember {
    pub open spec fn view(&self) -> MemberView {
        MemberView {
            name: self.name@,
            folder: self.folder@,
            is_engine: self.is_engine,
            flipped: self.flipped,
            uid: self.uid,
        }
    }
}

pub open spec fn member_views(v: Seq<ConsistMember>) -> Seq<MemberView> {
    v.map_values(|m: ConsistMember| m@)
}

/// The member described by the tokens inside an `Engine ( .. )` or
/// `Wagon ( .. )` block: its `EngineData`/`WagonData ( name folder )`, whether
/// a `Flip` block is present, and the number in its `UiD` block.
pub open spec fn member_of(t: Seq<Seq<char>>, is_engine: bool) -> Option<MemberView> {
    let data = if is_engine {
        "enginedata"@
    } else {
        "wagondata"@
    };
    match block(t, data) {
        None => None,
        Some((o, c)) => if c <= o + 2 {
            None
        } else {
            Some(
                MemberView {
                    name: t[o + 1],
                    folder: t[o + 2],
                    is_engine,
                    flipped: block(t, "flip"@) is Some,
                    uid: match block(t, "uid"@) {
                        Some((u, _)) => if u + 1 < t.len() {
                            i32_text(t[u + 1])
                        } else {
                            None
                        },
                        None => None,
                    },
                },
            )
        },
    }
}

/// The members of the `Engine`/`Wagon` blocks from token `cursor` on; scanning
/// stops at a block that does not close.
pub open spec fn members_from(t: Seq<Seq<char>>, cursor: int) -> Seq<MemberView>
    decreases t.len() - cursor,
{
    if cursor < 0 || cursor + 1 >= t.len() {
        Seq::empty()
    } else {
        let engine = eq_ignore_case(t[cursor], "engine"@);
        let wagon = eq_ignore_case(t[cursor], "wagon"@);
        if (engine || wagon) && t[cursor + 1] == "("@ {
            match matching(t, cursor + 1) {
                None => Seq::empty(),
                Some(close) => {
                    proof {
                        lemma_close_from(t, cursor + 1, 0);
                    }
                    let rest = members_from(t, close + 1);
                    match member_of(t.subrange(cursor + 2, close), engine) {
                        Some(m) => seq![m] + rest,
                        None => rest,
                    }
                },
            }
        } else {
            members_from(t, cursor + 1)
        }
    }
}

/// The members of a consist file's text, in train order.
pub open spec fn consist_members(text: Seq<char>) -> Seq<MemberView> {
    members_from(stf_token_seq(text), 0)
}

fn copy_token(t: &Vec<char>) -> (r: String)
    ensures
        r@ == t@,
{
    string_of(t.as_slice())
}

/// Reads one member from the tokens inside its block.
pub fn parse_member(tokens: &[Vec<char>], is_engine: bool) -> (r: Option<ConsistMember>)
    ensures
        r matches Some(m) ==> member_of(token_views(tokens@), is_engine) == Some(m@),
        r is None ==> member_of(token_views(tokens@), is_engine) is None,
{
    let ghost t = token_views(tokens@);
    let data = if is_engine {
        chars_of("enginedata")
    } else {
        chars_of("wagondata")
    };
    let (open, close) = match find_block(tokens, &data) {
        Some(b) => b,
        None => {
            return None;
        },
    };
    proof {
        lemma_block_from(t, data@, 0);
    }
    if close - open <= 2 {
        return None;
    }
    let name = copy_token(&tokens[open + 1]);
    let folder = copy_token(&tokens[open + 2]);
    let flip = chars_of("flip");
    let flipped = find_block(tokens, &flip).is_some();
    let uid_name = chars_of("uid");
    proof {
        lemma_block_from(t, uid_name@, 0);
    }
    let uid = match find_block(tokens, &uid_name) {
        Some((u, _)) => {
            if u + 1 < tokens.len() {
                parse_i32(&tokens[u + 1])
            } else {
                None
            }
        },
        None => None,
    };
    Some(ConsistMember { name, folder, is_engine, flipped, uid })
}

/// A copy of `tokens[lo..hi]`.
fn token_range(tokens: &[Vec<char>], lo: usize, hi: usize) -> (r: Vec<Vec<char>>)
    requires
        lo <= hi <= tokens@.len(),
    ensures
        token_views(r@) == token_views(tokens@).subrange(lo as int, hi as int),
{
    let mut r: Vec<Vec<char>> = Vec::new();
    let mut k = lo;
    while k < hi
        invariant
            lo <= k <= hi <= tokens@.len(),
            token_views(r@) == token_views(tokens@).subrange(lo as int, k as int),
        decreases hi - k,
    {
        let c = slice_range(tokens[k].as_slice(), 0, tokens[k].len());
        assert(c@ =~= tokens@[k as int]@);
        let ghost old_r = r@;
        r.push(c);
        assert(token_views(r@) =~= token_views(old_r).push(c@));
        assert(token_views(tokens@).subrange(lo as int, k + 1) =~= token_views(tokens@).subrange(
            lo as int,
            k as int,
        ).push(tokens@[k as int]@));
        k += 1;
    }
    r
}

/// The engines and wagons of a consist file, in train order, with their data
/// names, folders, flip state and UiD.
pub fn parse_members(text: &str) -> (r: Vec<ConsistMember>)
    ensures
        member_views(r@) == consist_members(text@),
{
    let chars = chars_of(text);
    let tokens = stf_tokens(&chars);
    let ghost t = token_views(tokens@);
    let engine = chars_of("engine");
    let wagon = chars_of("wagon");
    let mut members: Vec<ConsistMember> = Vec::new();
    let mut cursor: usize = 0;
    assert(member_views(members@) + members_from(t, 0) =~= members_from(t, 0));
    while cursor < tokens.len() && cursor + 1 < tokens.len()
        invariant
            t == token_views(tokens@),
            t == stf_token_seq(text@),
            engine@ == "engine"@,
            wagon@ == "wagon"@,
            cursor <= tokens@.len(),
            member_views(members@) + members_from(t, cursor as int) == members_from(t, 0),
        ensures
            members_from(t, cursor as int) == Seq::<MemberView>::empty(),
        decreases tokens.len() - cursor,
    {
        let ghost before = member_views(members@);
        assert(t[cursor as int] == tokens@[cursor as int]@);
        assert(t[cursor + 1] == tokens@[cursor + 1]@);
        let is_engine = eq_ignore_ascii_case(&tokens[cursor], &engine);
        let is_wagon = eq_ignore_ascii_case(&tokens[cursor], &wagon);
        let opens = tokens[cursor + 1].len() == 1 && tokens[cursor + 1][0] == '(';
        proof {
            reveal_strlit("(");
            if opens {
                assert(tokens@[cursor + 1]@ =~= "("@);
            }
        }
        if (is_engine || is_wagon) && opens {
            let open = cursor + 1;
            let close = match matching_paren(&tokens, open) {
                Some(c) => c,
                None => {
                    assert(members_from(t, cursor as int) =~= Seq::<MemberView>::empty());
                    break;
                },
            };
            proof {
                lemma_matching(t, open as int);
            }
            let inner = token_range(&tokens, open + 1, close);
            match parse_member(&inner, is_engine) {
                Some(member) => {
                    members.push(member);
                    assert(member_views(members@) =~= before.push(member@));
                    assert(before + members_from(t, cursor as int) =~= before.push(member@)
                        + members_from(t, close + 1));
                },
                None => {},
            }
            cursor = close + 1;
        } else {
            cursor += 1;
        }
    }
    assert(member_views(members@) + Seq::<MemberView>::empty() =~= member_views(members@));
    members
}

/// A consist member together with the vehicle file it names, as resolved in the tree.
#[derive(Debug)]
pub struct PlacedMember {
    pub member: ConsistMember,
    /// Where the vehicle file is (or would be).
    pub path: String,
    /// Whether that file exists.
    pub exists: bool,
}

/// One consist file and its resolved members, in train order.
#[derive(Debug)]
pub struct ConsistSource {
    pub path: String,
    /// The file name without extension.
    pub stem: String,
    pub members: Vec<PlacedMember>,
}

/// Every member of every consist file, with its file's stem and its index in the file.
pub open spec fn member_slots(files: Seq<ConsistSource>) -> Seq<(Seq<char>, nat, PlacedMember)>
    decreases files.len(),
{
    if files.len() == 0 {
        Seq::empty()
    } else {
        member_slots(files.drop_last()) + Seq::new(
            files.last().members@.len(),
            |k: int| (files.last().stem@, k as nat, files.last().members@[k]),
        )
    }
}

pub open spec fn role_text(is_engine: bool) -> Seq<char> {
    if is_engine {
        "engine"@
    } else {
        "wagon"@
    }
}

pub open spec fn uid_text(uid: Option<i32>) -> Seq<char> {
    match uid {
        Some(u) => signed_decimal(u as int),
        None => "unknown"@,
    }
}

pub open spec fn bool_text(b: bool) -> Seq<char> {
    if b {
        "true"@
    } else {
        "false"@
    }
}

/// `consist=<stem>:member=<index>:role=<engine|wagon>:uid=<uid|unknown>:flipped=<bool>`.
pub open spec fn member_source_id(stem: Seq<char>, index: nat, m: MemberView) -> Seq<char> {
    "consist="@ + stem + ":member="@ + decimal(index) + ":role="@ + role_text(m.is_engine)
        + ":uid="@ + uid_text(m.uid) + ":flipped="@ + bool_text(m.flipped)
}

/// The rolling-stock asset recorded for one member.
pub open spec fn member_asset(slot: (Seq<char>, nat, PlacedMember), id: u64) -> AssetView {
    let m = slot.2.member@;
    AssetView {
        id,
        kind: AssetKind::RollingStock,
        name: Some(m.folder + "/"@ + m.name),
        provenance: ProvenanceView {
            source_format: SourceFormat::MstsOpenRails,
            source_path: slot.2.path@,
            source_id: Some(member_source_id(slot.0, slot.1, m)),
        },
    }
}

/// One asset per member slot, numbered from `start` on.
pub open spec fn slot_assets(start: u64, slots: Seq<(Seq<char>, nat, PlacedMember)>) -> Seq<AssetView> {
    Seq::new(slots.len(), |g: int| member_asset(slots[g], id_after(start, g as nat)))
}

/// How many consist files have at least one member.
pub open spec fn consist_count(files: Seq<ConsistSource>) -> nat
    decreases files.len(),
{
    if files.len() == 0 {
        0
    } else {
        consist_count(files.drop_last()) + if files.last().members@.len() > 0 {
            1nat
        } else {
            0nat
        }
    }
}

/// How many member files are missing.
pub open spec fn missing_count(slots: Seq<(Seq<char>, nat, PlacedMember)>) -> nat
    decreases slots.len(),
{
    if slots.len() == 0 {
        0
    } else {
        missing_count(slots.drop_last()) + if slots.last().2.exists {
            0nat
        } else {
            1nat
        }
    }
}

pub open spec fn msg_members(parsed: nat, files: nat) -> Seq<char> {
    "resolved "@ + decimal(parsed) + " ordered member reference(s) from "@ + decimal(files)
        + " MSTS consist file(s); member order, engine/wagon role and flip state are preserved in provenance"@
}

pub open spec fn msg_missing(missing: nat) -> Seq<char> {
    decimal(missing)
        + " consist member file reference(s) could not be found in the detected TRAINS/TRAINSET layout"@
}

/// The summary diagnostics of a consist enrichment.
pub open spec fn consist_diagnostics(files: Seq<ConsistSource>) -> Seq<DiagnosticView> {
    let slots = member_slots(files);
    let parsed = if slots.len() > 0 {
        seq![
            DiagnosticView {
                severity: Severity::Info,
                code: "RW225_MSTS_CONSIST_MEMBERS"@,
                message: msg_members(slots.len(), consist_count(files)),
                provenance: None,
            },
        ]
    } else {
        Seq::empty()
    };
    if missing_count(slots) > 0 {
        parsed.push(
            DiagnosticView {
                severity: Severity::Warning,
                code: "RW226_MSTS_CONSIST_MEMBER_MISSING"@,
                message: msg_missing(missing_count(slots)),
                provenance: None,
            },
        )
    } else {
        parsed
    }
}

proof fn lemma_slots_push(files: Seq<ConsistSource>, i: int, k: int)
    requires
        0 <= i < files.len(),
        0 <= k < files[i].members@.len(),
    ensures
        member_slots(files.take(i)) + Seq::new(
            (k + 1) as nat,
            |j: int| (files[i].stem@, j as nat, files[i].members@[j]),
        ) == (member_slots(files.take(i)) + Seq::new(
            k as nat,
            |j: int| (files[i].stem@, j as nat, files[i].members@[j]),
        )).push((files[i].stem@, k as nat, files[i].members@[k])),
{
    let a = member_slots(files.take(i));
    assert(a + Seq::new((k + 1) as nat, |j: int| (files[i].stem@, j as nat, files[i].members@[j]))
        =~= (a + Seq::new(k as nat, |j: int| (files[i].stem@, j as nat, files[i].members@[j]))).push(
        (files[i].stem@, k as nat, files[i].members@[k]),
    ));
}

proof fn lemma_slots_prefix(files: Seq<ConsistSource>, j: int)
    requires
        0 <= j <= files.len(),
    ensures
        member_slots(files.take(j)).len() <= member_slots(files).len(),
    decreases files.len(),
{
    if j == files.len() {
        assert(files.take(j) =~= files);
    } else {
        lemma_slots_prefix(files.drop_last(), j);
        assert(files.drop_last().take(j) =~= files.take(j));
    }
}

proof fn lemma_slots_next_file(files: Seq<ConsistSource>, i: int)
    requires
        0 <= i < files.len(),
    ensures
        member_slots(files.take(i + 1)) == member_slots(files.take(i)) + Seq::new(
            files[i].members@.len(),
            |j: int| (files[i].stem@, j as nat, files[i].members@[j]),
        ),
        consist_count(files.take(i + 1)) == consist_count(files.take(i)) + if files[i].members@.len()
            > 0 {
            1nat
        } else {
            0nat
        },
{
    assert(files.take(i + 1).drop_last() =~= files.take(i));
}

fn source_id_text(stem: &String, index: usize, m: &ConsistMember) -> (r: String)
    ensures
        r@ == member_source_id(stem@, index as nat, m@),
{
    let mut v: Vec<char> = Vec::new();
    push_str(&mut v, "consist=");
    push_str(&mut v, stem.as_str());
    push_str(&mut v, ":member=");
    push_number(&mut v, index as u64);
    push_str(&mut v, ":role=");
    push_str(&mut v, if m.is_engine { "engine" } else { "wagon" });
    push_str(&mut v, ":uid=");
    match m.uid {
        Some(u) => push_signed(&mut v, u as i64),
        None => push_str(&mut v, "unknown"),
    }
    push_str(&mut v, ":flipped=");
    push_str(&mut v, if m.flipped { "true" } else { "false" });
    assert(v@ =~= member_source_id(stem@, index as nat, m@));
    string_of(&v)
}

fn member_asset_of(stem: &String, index: usize, p: &PlacedMember, id: u64) -> (a: AssetRef)
    ensures
        a.view() == member_asset((stem@, index as nat, *p), id),
{
    let mut name: Vec<char> = Vec::new();
    push_str(&mut name, p.member.folder.as_str());
    push_str(&mut name, "/");
    push_str(&mut name, p.member.name.as_str());
    AssetRef {
        id,
        kind: AssetKind::RollingStock,
        name: Some(string_of(&name)),
        provenance: Provenance {
            source_format: SourceFormat::MstsOpenRails,
            source_path: p.path.clone(),
            source_id: Some(source_id_text(stem, index, &p.member)),
        },
    }
}

/// The rolling-stock assets and summary diagnostics for the members of
/// consist files: one asset per member, in file and train order, numbered from
/// `next_id` on (saturating), then a count of the members read and, where some
/// member file is missing, a warning with their number.
pub fn consist_assets(next_id: u64, files: &[ConsistSource]) -> (r: (Vec<AssetRef>, Vec<Diagnostic>))
    requires
        member_slots(files@).len() <= u64::MAX,
    ensures
        asset_views(r.0@) == slot_assets(next_id, member_slots(files@)),
        diagnostic_views(r.1@) == consist_diagnostics(files@),
{
    let ghost all = member_slots(files@);
    let mut assets: Vec<AssetRef> = Vec::new();
    let mut id = next_id;
    let mut parsed: u64 = 0;
    let mut missing: u64 = 0;
    let mut count: u64 = 0;
    let mut i: usize = 0;
    assert(files@.take(0) =~= Seq::<ConsistSource>::empty());
    assert(asset_views(assets@) =~= slot_assets(next_id, member_slots(files@.take(0))));
    while i < files.len()
        invariant
            i <= files@.len(),
            all == member_slots(files@),
            all.len() <= u64::MAX,
            parsed == member_slots(files@.take(i as int)).len(),
            id == id_after(next_id, parsed as nat),
            missing == missing_count(member_slots(files@.take(i as int))),
            count == consist_count(files@.take(i as int)),
            count <= i,
            missing <= parsed,
            asset_views(assets@) == slot_assets(next_id, member_slots(files@.take(i as int))),
            member_slots(files@.take(i as int)).len() <= all.len(),
        decreases files.len() - i,
    {
        let f = &files[i];
        let ghost base = member_slots(files@.take(i as int));
        let ghost block = Seq::new(
            f.members@.len(),
            |j: int| (f.stem@, j as nat, f.members@[j]),
        );
        proof {
            lemma_slots_next_file(files@, i as int);
            lemma_slots_prefix(files@, i + 1);
        }
        let mut k: usize = 0;
        assert(base + Seq::new(0, |j: int| (f.stem@, j as nat, f.members@[j])) =~= base);
        while k < f.members.len()
            invariant
                0 <= i < files@.len(),
                f == files@[i as int],
                k <= f.members@.len(),
                base == member_slots(files@.take(i as int)),
                block == Seq::new(f.members@.len(), |j: int| (f.stem@, j as nat, f.members@[j])),
                base + block == member_slots(files@.take(i + 1)),
                member_slots(files@.take(i + 1)).len() <= u64::MAX,
                parsed == base.len() + k,
                id == id_after(next_id, parsed as nat),
                missing == missing_count(base + Seq::new(k as nat, |j: int| (f.stem@, j as nat, f.members@[j]))),
                missing <= parsed,
                asset_views(assets@) == slot_assets(
                    next_id,
                    base + Seq::new(k as nat, |j: int| (f.stem@, j as nat, f.members@[j])),
                ),
            decreases f.members.len() - k,
        {
            let p = &f.members[k];
            let a = member_asset_of(&f.stem, k, p, id);
            let ghost cur = base + Seq::new(k as nat, |j: int| (f.stem@, j as nat, f.members@[j]));
            let ghost old_assets = asset_views(assets@);
            assets.push(a);
            proof {
                lemma_slots_push(files@, i as int, k as int);
                let nxt = base + Seq::new((k + 1) as nat, |j: int| (f.stem@, j as nat, f.members@[j]));
                assert(nxt == cur.push((f.stem@, k as nat, f.members@[k as int])));
                assert(nxt.drop_last() =~= cur);
                assert(asset_views(assets@) =~= old_assets.push(a.view()));
                assert(cur.len() == parsed);
                assert(nxt[cur.len() as int] == (f.stem@, k as nat, *p));
                assert(slot_assets(next_id, nxt) =~= slot_assets(next_id, cur).push(
                    member_asset(nxt[cur.len() as int], id_after(next_id, cur.len())),
                ));
                assert(asset_views(assets@) =~= slot_assets(next_id, nxt));
                assert(nxt.len() <= (base + block).len());
            }
            if !p.exists {
                missing += 1;
            }
            parsed += 1;
            id = if id < u64::MAX {
                id + 1
            } else {
                id
            };
            k += 1;
        }
        assert(base + Seq::new(f.members@.len(), |j: int| (f.stem@, j as nat, f.members@[j])) =~= base
            + block);
        if f.members.len() > 0 {
            count += 1;
        }
        i += 1;
    }
    assert(files@.take(files@.len() as int) =~= files@);
    let mut diagnostics: Vec<Diagnostic> = Vec::new();
    if parsed > 0 {
        let mut m: Vec<char> = Vec::new();
        push_str(&mut m, "resolved ");
        push_number(&mut m, parsed);
        push_str(&mut m, " ordered member reference(s) from ");
        push_number(&mut m, count);
        push_str(
            &mut m,
            " MSTS consist file(s); member order, engine/wagon role and flip state are preserved in provenance",
        );
        diagnostics.push(Diagnostic::new(Severity::Info, "RW225_MSTS_CONSIST_MEMBERS", string_of(&m)));
    }
    if missing > 0 {
        let mut m: Vec<char> = Vec::new();
        push_number(&mut m, missing);
        push_str(
            &mut m,
            " consist member file reference(s) could not be found in the detected TRAINS/TRAINSET layout",
        );
        diagnostics.push(
            Diagnostic::new(Severity::Warning, "RW226_MSTS_CONSIST_MEMBER_MISSING", string_of(&m)),
        );
    }
    assert(diagnostic_views(diagnostics@) =~= consist_diagnostics(files@));
    (assets, diagnostics)
}

/// Unless the ids run out, the member assets get distinct ids, ascending in
/// file and train order, one asset per member.
pub proof fn law_member_asset_ids_ascend(start: u64, files: Seq<ConsistSource>)
    requires
        start + member_slots(files).len() <= u64::MAX + 1,
    ensures
        slot_assets(start, member_slots(files)).len() == member_slots(files).len(),
        forall|i: int, j: int|
            0 <= i < j < member_slots(files).len() ==> #[trigger] slot_assets(
                start,
                member_slots(files),
            )[i].id < #[trigger] slot_assets(start, member_slots(files))[j].id,
{
}

/// The final component of a `/`-separated path (trailing separators ignored).
pub open spec fn path_file_name(p: Seq<char>) -> Seq<char>
    decreases p.len(),
{
    if p.len() > 0 && p.last() == '/' {
        path_file_name(p.drop_last())
    } else {
        p.skip(last_slash(p, p.len() as int) + 1)
    }
}

/// The index of the last `/` before `end`, or -1.
pub open spec fn last_slash(p: Seq<char>, end: int) -> int
    decreases end,
{
    if end <= 0 || end > p.len() {
        -1
    } else if p[end - 1] == '/' {
        end - 1
    } else {
        last_slash(p, end - 1)
    }
}

proof fn lemma_last_slash(p: Seq<char>, end: int)
    requires
        0 <= end <= p.len(),
    ensures
        -1 <= last_slash(p, end) < end,
    decreases end,
{
    if end > 0 && p[end - 1] != '/' {
        lemma_last_slash(p, end - 1);
    }
}

/// A rolling-stock asset of an MSTS source.
pub open spec fn msts_stock(a: AssetRef) -> bool {
    a.kind == AssetKind::RollingStock && a.provenance.source_format == SourceFormat::MstsOpenRails
}

/// An MSTS rolling-stock asset whose file is an `.eng` or `.wag`, and the first
/// MSTS rolling-stock asset with its id (assets of other kinds or formats do
/// not count).
pub open spec fn vehicle_file(assets: Seq<AssetRef>, i: int) -> bool {
    let a = assets[i];
    let name = path_file_name(a.provenance.source_path@);
    &&& msts_stock(a)
    &&& forall|j: int| 0 <= j < i ==> !(msts_stock(#[trigger] assets[j]) && assets[j].id == a.id)
    &&& (has_ext(name, "eng"@) || has_ext(name, "wag"@))
}

fn file_name_chars(path: &String) -> (r: Vec<char>)
    ensures
        r@ == path_file_name(path@),
{
    let p = chars_of(path.as_str());
    let mut end = p.len();
    assert(p@.take(end as int) =~= p@);
    while end > 0 && p[end - 1] == '/'
        invariant
            end <= p@.len(),
            path_file_name(p@) == path_file_name(p@.take(end as int)),
        decreases end,
    {
        assert(p@.take(end as int).drop_last() =~= p@.take(end - 1));
        end -= 1;
    }
    proof {
        if end == p@.len() {
            assert(p@.take(end as int) =~= p@);
        }
    }
    let q = slice_range(&p, 0, end);
    assert(q@ =~= p@.take(end as int));
    let mut cut = q.len();
    while cut > 0 && q[cut - 1] != '/'
        invariant
            cut <= q@.len(),
            last_slash(q@, q@.len() as int) == last_slash(q@, cut as int),
        decreases cut,
    {
        cut -= 1;
    }
    proof {
        lemma_last_slash(q@, q@.len() as int);
    }
    let r = slice_range(&q, cut, q.len());
    assert(r@ =~= q@.skip(last_slash(q@, q@.len() as int) + 1));
    r
}

/// The assets whose vehicle files are read for metadata, in asset order.
pub fn vehicle_candidates(assets: &[AssetRef]) -> (r: Vec<usize>)
    ensures
        forall|k: int| 0 <= k < r@.len() ==> r@[k] < assets@.len(),
        forall|k: int, j: int| 0 <= k < j < r@.len() ==> r@[k] < r@[j],
        forall|i: int| 0 <= i < assets@.len() ==> (vehicle_file(assets@, i) <==> r@.contains(i as usize)),
{
    let eng = chars_of("eng");
    let wag = chars_of("wag");
    let mut out: Vec<usize> = Vec::new();
    let mut i: usize = 0;
    while i < assets.len()
        invariant
            i <= assets@.len(),
            eng@ == "eng"@,
            wag@ == "wag"@,
            forall|k: int| 0 <= k < out@.len() ==> out@[k] < i,
            forall|k: int, j: int| 0 <= k < j < out@.len() ==> out@[k] < out@[j],
            forall|q: int| 0 <= q < i ==> (vehicle_file(assets@, q) <==> out@.contains(q as usize)),
        decreases assets.len() - i,
    {
        let a = &assets[i];
        let mut first = true;
        let mut j: usize = 0;
        while j < i
            invariant
                j <= i < assets@.len(),
                *a == assets@[i as int],
                first == forall|q: int|
                    0 <= q < j ==> !(msts_stock(#[trigger] assets@[q]) && assets@[q].id == assets@[i as int].id),
            decreases i - j,
        {
            let b = &assets[j];
            if b.id == a.id && b.kind == AssetKind::RollingStock && b.provenance.source_format
                == SourceFormat::MstsOpenRails {
                first = false;
                assert(msts_stock(assets@[j as int]) && assets@[j as int].id == assets@[i as int].id);
            }
            assert(first == forall|q: int|
                0 <= q < j + 1 ==> !(msts_stock(#[trigger] assets@[q]) && assets@[q].id == assets@[i as int].id)) by {
                if !first && forall|q: int|
                    0 <= q < j + 1 ==> !(msts_stock(#[trigger] assets@[q]) && assets@[q].id == assets@[i as int].id) {
                    if !(msts_stock(assets@[j as int]) && assets@[j as int].id == assets@[i as int].id) {
                        let w = choose|w: int|
                            0 <= w < j && (msts_stock(#[trigger] assets@[w]) && assets@[w].id == assets@[i as int].id);
                        assert(!(msts_stock(assets@[w]) && assets@[w].id == assets@[i as int].id));
                    }
                }
            }
            j += 1;
        }
        let name = file_name_chars(&a.provenance.source_path);
        let keep = a.kind == AssetKind::RollingStock && a.provenance.source_format == SourceFormat::MstsOpenRails
            && first && (name_has_extension(&name, &eng) || name_has_extension(&name, &wag));
        let ghost before = out@;
        if keep {
            out.push(i);
        }
        assert forall|q: int| 0 <= q <= i implies (vehicle_file(assets@, q) <==> out@.contains(q as usize)) by {
            if q < i {
                if out@.contains(q as usize) {
                    let w = choose|w: int| 0 <= w < out@.len() && out@[w] == q as usize;
                    if w < before.len() {
                        assert(before[w] == q as usize);
                    }
                }
                if before.contains(q as usize) {
                    let w = choose|w: int| 0 <= w < before.len() && before[w] == q as usize;
                    assert(out@[w] == q as usize);
                }
            } else {
                if keep {
                    assert(out@[before.len() as int] == i);
                } else {
                    if out@.contains(q as usize) {
                        let w = choose|w: int| 0 <= w < out@.len() && out@[w] == q as usize;
                        assert(before[w] < i);
                    }
                }
            }
        }
        i += 1;
    }
    out
}

/// The note on how many vehicle files were read, where any were.
pub fn vehicle_summary(parsed: usize) -> (r: Option<Diagnostic>)
    ensures
        match r {
            Some(d) => parsed > 0 && d.view() == (DiagnosticView {
                severity: Severity::Info,
                code: "RW230_MSTS_VEHICLE_METADATA"@,
                message: "parsed basic physical/brake metadata for "@ + decimal(parsed as nat)
                    + " MSTS/OpenRails ENG/WAG vehicle file(s)"@,
                provenance: None,
            }),
            None => parsed == 0,
        },
{
    if parsed > 0 {
        let mut m: Vec<char> = Vec::new();
        push_str(&mut m, "parsed basic physical/brake metadata for ");
        push_number(&mut m, parsed as u64);
        push_str(&mut m, " MSTS/OpenRails ENG/WAG vehicle file(s)");
        Some(Diagnostic::new(Severity::Info, "RW230_MSTS_VEHICLE_METADATA", string_of(&m)))
    } else {
        None
    }
}

/// The vehicle file a member names: `<name>.eng` or `<name>.wag`.
pub open spec fn member_file(m: MemberView) -> Seq<char> {
    m.name + if m.is_engine {
        ".eng"@
    } else {
        ".wag"@
    }
}

pub fn member_file_name(m: &ConsistMember) -> (r: String)
    ensures
        r@ == member_file(m@),
{
    let mut v: Vec<char> = Vec::new();
    push_str(&mut v, m.name.as_str());
    push_str(&mut v, if m.is_engine { ".eng" } else { ".wag" });
    string_of(&v)
}

/// How many components the deepest of the first `n` prefixes of a path has
/// whose last component is `trains` (ignoring ASCII case): the `TRAINS`
/// folder above a consist file.
pub open spec fn trains_depth(c: Seq<Seq<char>>, n: int) -> Option<int>
    decreases n,
{
    if n <= 0 {
        None
    } else if eq_ignore_case(c[n - 1], "trains"@) {
        Some(n)
    } else {
        trains_depth(c, n - 1)
    }
}

/// The number of components of the consist file's nearest `TRAINS` ancestor
/// (the file itself included), if it has one.
pub fn trains_ancestor(components: &Vec<String>) -> (r: Option<usize>)
    ensures
        match r {
            Some(k) => trains_depth(components@.map_values(|s: String| s@), components@.len() as int) == Some(k as int),
            None => trains_depth(components@.map_values(|s: String| s@), components@.len() as int) is None,
        },
{
    let ghost c = components@.map_values(|s: String| s@);
    let trains = chars_of("trains");
    let mut n = components.len();
    while n > 0
        invariant
            n <= components@.len(),
            c == components@.map_values(|s: String| s@),
            trains@ == "trains"@,
            trains_depth(c, components@.len() as int) == trains_depth(c, n as int),
        decreases n,
    {
        assert(c[n - 1] == components@[n - 1]@);
        if eq_ignore_ascii_case(&chars_of(components[n - 1].as_str()), &trains) {
            return Some(n);
        }
        n -= 1;
    }
    None
}

/// A `.con` file found in an MSTS source: its path and its file stem.
#[derive(Debug)]
pub struct ConsistFile {
    pub path: String,
    pub stem: Option<String>,
}

/// The rolling-stock asset of the `k`-th consist file, numbered from `start`.
pub open spec fn consist_file_asset(start: u64, f: ConsistFile, k: nat) -> AssetView {
    AssetView {
        id: id_after(start, k),
        kind: AssetKind::RollingStock,
        name: crate::model::opt_str(f.stem),
        provenance: ProvenanceView { source_format: SourceFormat::MstsOpenRails, source_path: f.path@, source_id: None },
    }
}

/// One rolling-stock asset per consist file, in order, named by the file's
/// stem and numbered from `start` (saturating).
pub fn consist_file_assets(start: u64, files: &Vec<ConsistFile>) -> (r: Vec<AssetRef>)
    ensures
        asset_views(r@) == Seq::new(files@.len(), |k: int| consist_file_asset(start, files@[k], k as nat)),
{
    let mut out: Vec<AssetRef> = Vec::new();
    let mut next = start;
    let mut k: usize = 0;
    while k < files.len()
        invariant
            k <= files@.len(),
            next == id_after(start, k as nat),
            asset_views(out@) == Seq::new(k as nat, |q: int| consist_file_asset(start, files@[q], q as nat)),
        decreases files.len() - k,
    {
        let f = &files[k];
        let a = AssetRef {
            id: next,
            kind: AssetKind::RollingStock,
            name: crate::model::copy_opt_string(&f.stem),
            provenance: Provenance {
                source_format: SourceFormat::MstsOpenRails,
                source_path: f.path.clone(),
                source_id: None,
            },
        };
        let ghost before = asset_views(out@);
        out.push(a);
        assert(asset_views(out@) =~= before.push(a.view()));
        assert(asset_views(out@) =~= Seq::new((k + 1) as nat, |q: int| consist_file_asset(start, files@[q], q as nat)));
        next = if next < u64::MAX {
            next + 1
        } else {
            next
        };
        k += 1;
    }
    out
}

/// What an MSTS import without a route is called, and how it is described.
pub open spec fn stock_only_description() -> Seq<char> {
    "Imported from MSTS/OpenRails rolling-stock content"@
}

pub open spec fn asset_scope_note() -> DiagnosticView {
    DiagnosticView {
        severity: Severity::Info,
        code: "RW208_MSTS_ASSET_IMPORT_SCOPE"@,
        message: "MSTS/OpenRails .con files are represented as rolling-stock source asset references; consist vehicles, physics, cabs and sounds are future work"@,
        provenance: None,
    }
}

/// How an MSTS import ends: where it has no track nodes and no title, it is
/// titled with the source's stem and described as rolling-stock content; where
/// it has assets, the asset scope is noted.
pub fn msts_import_ending(has_nodes: bool, has_title: bool, has_assets: bool, root_stem: Option<String>) -> (r: (
    Option<(Option<String>, String)>,
    Option<Diagnostic>,
))
    ensures
        match r.0 {
            Some((title, description)) => !has_nodes && !has_title && crate::model::opt_str(title)
                == crate::model::opt_str(root_stem) && description@ == stock_only_description(),
            None => has_nodes || has_title,
        },
        match r.1 {
            Some(d) => has_assets && d.view() == asset_scope_note(),
            None => !has_assets,
        },
{
    let naming = if !has_nodes && !has_title {
        Some((root_stem, "Imported from MSTS/OpenRails rolling-stock content".to_owned()))
    } else {
        None
    };
    let note = if has_assets {
        Some(
            Diagnostic::new(
                Severity::Info,
                "RW208_MSTS_ASSET_IMPORT_SCOPE",
                "MSTS/OpenRails .con files are represented as rolling-stock source asset references; consist vehicles, physics, cabs and sounds are future work".to_owned(),
            ),
        )
    } else {
        None
    };
    (naming, note)
}

} // verus!
