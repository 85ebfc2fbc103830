//! Composition manifests: one project built from the network of one input,
//! the metadata of another and the assets of several.
use vstd::prelude::*;

use crate::keymap::KeyMap;
use crate::model::{
    asset_views, diagnostic_views, id_after, lemma_max_id_bounds, max_entity_id, max_id, AssetRef, AssetView, Diagnostic,
    DiagnosticView, Severity, IR_SCHEMA_VERSION,
};
use crate::text::{chars_of, debug_quoted, debug_text, decimal, push_number, push_str, starts_with, ends_with, string_of};

verus! {

/// One input of a manifest: a simulator source to import, or a saved IR file.
#[derive(Debug)]
pub struct InputSpec {
    pub source: Option<String>,
    pub ir: Option<String>,
}

/// Which input supplies what.
#[derive(Debug)]
pub struct ComposeSpec {
    pub network: String,
    /// The input whose metadata is kept; the network input where absent.
    pub metadata: Option<String>,
    /// The inputs whose assets are merged, in order; the network input where empty.
    pub assets: Vec<String>,
}

/// A `railweave.toml` composition manifest.
#[derive(Debug)]
pub struct Manifest {
    pub version: u32,
    pub inputs: KeyMap<InputSpec>,
    pub compose: ComposeSpec,
}

/// Why a composition failed.
#[derive(Debug)]
pub struct ComposeError {
    pub code: String,
    pub message: String,
}

pub struct ComposeErrorView {
    pub code: Seq<char>,
    pub message: Seq<char>,
}

impl ComposeError {
    pub open spec fn view(&self) -> ComposeErrorView {
        ComposeErrorView { code: self.code@, message: self.message@ }
    }

    pub fn new(code: &str, message: String) -> (e: ComposeError)
        ensures
            e.view() == (ComposeErrorView { code: code@, message: message@ }),
    {
        ComposeError { code: code.to_owned(), message }
    }

    /// `code: message`, as the error is displayed.
    pub fn to_message(&self) -> (s: String)
        ensures
            s@ == self.code@ + ": "@ + self.message@,
    {
        let mut v: Vec<char> = Vec::new();
        push_str(&mut v, self.code.as_str());
        push_str(&mut v, ": ");
        push_str(&mut v, self.message.as_str());
        string_of(&v)
    }
}

pub open spec fn compose_err(code: Seq<char>, message: Seq<char>) -> ComposeErrorView {
    ComposeErrorView { code, message }
}

/// Where an input's project comes from.
#[derive(Debug)]
pub enum InputSource {
    /// A simulator source tree or file, imported.
    Source(String),
    /// A RailWeave interchange file, read as it is.
    Ir(String),
}

/// The loader an input names, or why it names none.
pub open spec fn input_source_of(name: Seq<char>, spec: InputSpec) -> Result<Seq<char>, ComposeErrorView> {
    match (spec.source, spec.ir) {
        (Some(_), Some(_)) => Err(
            compose_err(
                "RW304_AMBIGUOUS_INPUT"@,
                "input "@ + debug_text(name) + " must specify exactly one of source or ir"@,
            ),
        ),
        (None, None) => Err(
            compose_err(
                "RW305_EMPTY_INPUT"@,
                "input "@ + debug_text(name) + " must specify source or ir"@,
            ),
        ),
        (Some(s), None) => Ok(s@),
        (None, Some(i)) => Ok(i@),
    }
}

/// Which loader an input asks for: exactly one of `source` and `ir` must be given.
pub fn input_source(name: &str, spec: &InputSpec) -> (r: Result<InputSource, ComposeError>)
    ensures
        match r {
            Ok(InputSource::Source(p)) => spec.source is Some && input_source_of(name@, *spec) == Ok::<
                Seq<char>,
                ComposeErrorView,
            >(p@),
            Ok(InputSource::Ir(p)) => spec.ir is Some && input_source_of(name@, *spec) == Ok::<
                Seq<char>,
                ComposeErrorView,
            >(p@),
            Err(e) => input_source_of(name@, *spec) == Err::<Seq<char>, ComposeErrorView>(e.view()),
        },
{
    match (&spec.source, &spec.ir) {
        (Some(source), None) => Ok(InputSource::Source(source.clone())),
        (None, Some(ir)) => Ok(InputSource::Ir(ir.clone())),
        (Some(_), Some(_)) => {
            let mut m: Vec<char> = Vec::new();
            push_str(&mut m, "input ");
            push_str(&mut m, debug_quoted(name).as_str());
            push_str(&mut m, " must specify exactly one of source or ir");
            Err(ComposeError::new("RW304_AMBIGUOUS_INPUT", string_of(&m)))
        },
        (None, None) => {
            let mut m: Vec<char> = Vec::new();
            push_str(&mut m, "input ");
            push_str(&mut m, debug_quoted(name).as_str());
            push_str(&mut m, " must specify source or ir");
            Err(ComposeError::new("RW305_EMPTY_INPUT", string_of(&m)))
        },
    }
}

/// Only manifest version 1 is read.
pub fn check_version(version: u32) -> (r: Result<(), ComposeError>)
    ensures
        r is Ok <==> version == 1,
        r matches Err(e) ==> e.view() == compose_err(
            "RW309_MANIFEST_VERSION"@,
            "unsupported manifest version "@ + decimal(version as nat),
        ),
{
    if version == 1 {
        Ok(())
    } else {
        let mut m: Vec<char> = Vec::new();
        push_str(&mut m, "unsupported manifest version ");
        push_number(&mut m, version as u64);
        Err(ComposeError::new("RW309_MANIFEST_VERSION", string_of(&m)))
    }
}

/// An input's project must use the IR schema that this library reads.
pub fn check_schema(name: &str, schema_version: u32) -> (r: Result<(), ComposeError>)
    ensures
        r is Ok <==> schema_version == IR_SCHEMA_VERSION,
        r matches Err(e) ==> e.view() == compose_err(
            "RW310_IR_VERSION"@,
            "input "@ + debug_text(name@) + " uses IR schema "@ + decimal(schema_version as nat)
                + ", expected "@ + decimal(IR_SCHEMA_VERSION as nat),
        ),
{
    if schema_version == IR_SCHEMA_VERSION {
        Ok(())
    } else {
        let mut m: Vec<char> = Vec::new();
        push_str(&mut m, "input ");
        push_str(&mut m, debug_quoted(name).as_str());
        push_str(&mut m, " uses IR schema ");
        push_number(&mut m, schema_version as u64);
        push_str(&mut m, ", expected ");
        push_number(&mut m, IR_SCHEMA_VERSION as u64);
        Err(ComposeError::new("RW310_IR_VERSION", string_of(&m)))
    }
}

/// `base.join(path)` for `/`-separated paths: an absolute `path` stands
/// alone; otherwise it is appended to `base` with one separator.
pub open spec fn resolved_path(base: Seq<char>, path: Seq<char>) -> Seq<char> {
    if starts_with(path, "/"@) || base.len() == 0 {
        path
    } else if ends_with(base, "/"@) {
        base + path
    } else {
        base + "/"@ + path
    }
}

/// Resolves a manifest path against the manifest's directory.
pub fn resolve(base: &str, path: &str) -> (r: String)
    ensures
        r@ == resolved_path(base@, path@),
{
    let p = chars_of(path);
    let b = chars_of(base);
    proof {
        reveal_strlit("/");
    }
    if (p.len() > 0 && p[0] == '/') || b.len() == 0 {
        if p.len() > 0 && p[0] == '/' {
            assert(p@.take(1) =~= "/"@);
        }
        return path.to_owned();
    }
    assert(!starts_with(p@, "/"@)) by {
        if starts_with(p@, "/"@) {
            assert(p@.take(1)[0] == '/');
        }
    }
    let mut v: Vec<char> = Vec::new();
    push_str(&mut v, base);
    if b[b.len() - 1] != '/' {
        assert(!ends_with(b@, "/"@)) by {
            if ends_with(b@, "/"@) {
                assert(b@.skip(b@.len() - 1)[0] == b@[b@.len() - 1]);
            }
        }
        push_str(&mut v, "/");
    } else {
        assert(b@.skip(b@.len() - 1) =~= "/"@);
    }
    push_str(&mut v, path);
    string_of(&v)
}

/// What a loaded input contributes to a composition.
#[derive(Debug)]
pub struct LoadedInput {
    /// The ids of the project's track nodes and edges.
    pub entity_ids: Vec<u64>,
    pub assets: Vec<AssetRef>,
    /// The asset id that each of the project's vehicles describes, in order.
    pub vehicle_assets: Vec<u64>,
    /// The member asset ids of each of the project's consists, in order.
    pub consist_members: Vec<Vec<u64>>,
    pub diagnostics: Vec<Diagnostic>,
}

/// A vehicle of a composed project: the input and position it comes from,
/// and the id of its renumbered asset.
#[derive(Debug)]
pub struct VehicleRef {
    pub input: String,
    pub index: usize,
    pub asset_id: u64,
}

/// A consist of a composed project: the input and position it comes from,
/// and the renumbered asset ids of its members.
#[derive(Debug)]
pub struct ConsistRef {
    pub input: String,
    pub index: usize,
    pub members: Vec<u64>,
}

impl VehicleRef {
    pub open spec fn view(&self) -> (Seq<char>, nat, u64) {
        (self.input@, self.index as nat, self.asset_id)
    }
}

impl ConsistRef {
    pub open spec fn view(&self) -> (Seq<char>, nat, Seq<u64>) {
        (self.input@, self.index as nat, self.members@)
    }
}

pub open spec fn vehicle_views(v: Seq<VehicleRef>) -> Seq<(Seq<char>, nat, u64)> {
    v.map_values(|r: VehicleRef| r.view())
}

pub open spec fn consist_views(v: Seq<ConsistRef>) -> Seq<(Seq<char>, nat, Seq<u64>)> {
    v.map_values(|r: ConsistRef| r.view())
}

/// A composed project's parts, chosen from the inputs.
#[derive(Debug)]
pub struct Composition {
    /// The input whose network (and project) is kept.
    pub network: String,
    /// The input whose metadata is kept.
    pub metadata: String,
    /// The merged assets, renumbered.
    pub assets: Vec<AssetRef>,
    /// The vehicles of the asset inputs, in order, pointing at their renumbered assets.
    pub vehicles: Vec<VehicleRef>,
    /// The consists of the asset inputs, in order, pointing at their renumbered assets.
    pub consists: Vec<ConsistRef>,
    /// Every input's diagnostics, in input-name order, then a summary.
    pub diagnostics: Vec<Diagnostic>,
}

pub struct CompositionView {
    pub network: Seq<char>,
    pub metadata: Seq<char>,
    pub assets: Seq<AssetView>,
    pub vehicles: Seq<(Seq<char>, nat, u64)>,
    pub consists: Seq<(Seq<char>, nat, Seq<u64>)>,
    pub diagnostics: Seq<DiagnosticView>,
}

pub open spec fn unknown_input(name: Seq<char>) -> ComposeErrorView {
    compose_err("RW306_UNKNOWN_INPUT"@, "composition references unknown input "@ + debug_text(name))
}

/// The input named `name`, or the error for an unknown one.
pub fn require_input<'a>(inputs: &'a KeyMap<LoadedInput>, name: &str) -> (r: Result<
    &'a LoadedInput,
    ComposeError,
>)
    ensures
        r matches Ok(i) ==> inputs.view().contains_key(name@) && *i == inputs.view()[name@],
        r matches Err(e) ==> !inputs.view().contains_key(name@) && e.view() == unknown_input(name@),
{
    match inputs.get(name) {
        Some(i) => Ok(i),
        None => {
            let mut m: Vec<char> = Vec::new();
            push_str(&mut m, "composition references unknown input ");
            push_str(&mut m, debug_quoted(name).as_str());
            Err(ComposeError::new("RW306_UNKNOWN_INPUT", string_of(&m)))
        },
    }
}

/// The inputs whose assets are merged.
pub open spec fn asset_source_names(spec: ComposeSpec) -> Seq<Seq<char>> {
    if spec.assets@.len() == 0 {
        seq![spec.network@]
    } else {
        spec.assets@.map_values(|s: String| s@)
    }
}

/// The first name that no input has.
pub open spec fn first_unknown(names: Seq<Seq<char>>, inputs: Map<Seq<char>, LoadedInput>) -> Option<
    Seq<char>,
>
    decreases names.len(),
{
    if names.len() == 0 {
        None
    } else {
        match first_unknown(names.drop_last(), inputs) {
            Some(n) => Some(n),
            None => if inputs.contains_key(names.last()) {
                None
            } else {
                Some(names.last())
            },
        }
    }
}

/// The assets of the named inputs, in order.
pub open spec fn assets_of(names: Seq<Seq<char>>, inputs: Map<Seq<char>, LoadedInput>) -> Seq<
    AssetView,
>
    decreases names.len(),
{
    if names.len() == 0 {
        Seq::empty()
    } else {
        assets_of(names.drop_last(), inputs) + asset_views(inputs[names.last()].assets@)
    }
}

/// `assets` numbered one after another from `start` (saturating).
pub open spec fn renumbered(assets: Seq<AssetView>, start: u64) -> Seq<AssetView> {
    Seq::new(assets.len(), |g: int| AssetView { id: id_after(start, g as nat), ..assets[g] })
}

/// The first id after the network's nodes and edges.
pub open spec fn first_free_id(network: LoadedInput) -> u64 {
    id_after(max_id(network.entity_ids@), 1)
}

/// Every input's diagnostics, in key order, for the first `n` keys.
pub open spec fn diagnostics_upto(inputs: KeyMap<LoadedInput>, n: int) -> Seq<DiagnosticView>
    decreases n,
{
    if n <= 0 {
        Seq::empty()
    } else {
        diagnostics_upto(inputs, n - 1) + diagnostic_views(
            inputs.view()[inputs.keys()[n - 1]].diagnostics@,
        )
    }
}

/// `parts` joined by `sep`.
pub open spec fn joined(parts: Seq<Seq<char>>, sep: Seq<char>) -> Seq<char>
    decreases parts.len(),
{
    if parts.len() == 0 {
        Seq::empty()
    } else if parts.len() == 1 {
        parts[0]
    } else {
        joined(parts.drop_last(), sep) + sep + parts.last()
    }
}

pub open spec fn msg_composed(network: Seq<char>, metadata: Seq<char>, sources: Seq<Seq<char>>) -> Seq<
    char,
> {
    "composed network from "@ + debug_text(network) + ", metadata from "@ + debug_text(metadata)
        + ", assets from ["@ + joined(sources, ", "@) + "]"@
}

/// The input whose metadata is kept.
pub open spec fn metadata_name(spec: ComposeSpec) -> Seq<char> {
    match spec.metadata {
        Some(m) => m@,
        None => spec.network@,
    }
}

/// The position of the first asset from `k` on with id `id`.
pub open spec fn first_with_id(a: Seq<AssetView>, id: u64, k: int) -> Option<int>
    decreases a.len() - k,
{
    if k < 0 || k >= a.len() {
        None
    } else if a[k].id == id {
        Some(k)
    } else {
        first_with_id(a, id, k + 1)
    }
}

/// The new id of an input's asset `id`, where the input's assets are
/// renumbered from `base`: that of the first of them with the id.
pub open spec fn moved_id(a: Seq<AssetView>, base: u64, id: u64) -> u64 {
    match first_with_id(a, id, 0) {
        Some(k) => id_after(base, k as nat),
        None => base,
    }
}

/// The first of `ids` from `k` on that no asset has.
pub open spec fn missing_from(a: Seq<AssetView>, ids: Seq<u64>, k: int) -> Option<u64>
    decreases ids.len() - k,
{
    if k < 0 || k >= ids.len() {
        None
    } else if first_with_id(a, ids[k], 0) is None {
        Some(ids[k])
    } else {
        missing_from(a, ids, k + 1)
    }
}

/// The first member id, in the consists from `k` on, that no asset has.
pub open spec fn missing_in_consists(a: Seq<AssetView>, cs: Seq<Seq<u64>>, k: int) -> Option<u64>
    decreases cs.len() - k,
{
    if k < 0 || k >= cs.len() {
        None
    } else {
        match missing_from(a, cs[k], 0) {
            Some(x) => Some(x),
            None => missing_in_consists(a, cs, k + 1),
        }
    }
}

pub open spec fn members_views(v: Seq<Vec<u64>>) -> Seq<Seq<u64>> {
    v.map_values(|c: Vec<u64>| c@)
}

/// The first asset id that an input's vehicles, then its consists, refer to
/// and that none of its assets has.
pub open spec fn input_missing(i: LoadedInput) -> Option<u64> {
    let a = asset_views(i.assets@);
    match missing_from(a, i.vehicle_assets@, 0) {
        Some(x) => Some(x),
        None => missing_in_consists(a, members_views(i.consist_members@), 0),
    }
}

pub open spec fn dangling_reference(name: Seq<char>, id: u64) -> ComposeErrorView {
    compose_err(
        "RW311_DANGLING_REFERENCE"@,
        "input "@ + debug_text(name) + " references missing asset "@ + decimal(id as nat),
    )
}

/// The vehicles and consists of the named inputs, in order, their asset ids
/// moved as their inputs' assets are renumbered from `start` on; or the first
/// input that refers to an asset it does not have.
pub open spec fn references_of(names: Seq<Seq<char>>, m: Map<Seq<char>, LoadedInput>, start: u64) -> Result<
    (Seq<(Seq<char>, nat, u64)>, Seq<(Seq<char>, nat, Seq<u64>)>),
    ComposeErrorView,
>
    decreases names.len(),
{
    if names.len() == 0 {
        Ok((Seq::empty(), Seq::empty()))
    } else {
        match references_of(names.drop_last(), m, start) {
            Err(e) => Err(e),
            Ok((vs, cs)) => {
                let name = names.last();
                let i = m[name];
                let a = asset_views(i.assets@);
                let base = id_after(start, assets_of(names.drop_last(), m).len());
                match input_missing(i) {
                    Some(id) => Err(dangling_reference(name, id)),
                    None => Ok(
                        (
                            vs + Seq::new(
                                i.vehicle_assets@.len(),
                                |k: int| (name, k as nat, moved_id(a, base, i.vehicle_assets@[k])),
                            ),
                            cs + Seq::new(
                                i.consist_members@.len(),
                                |k: int|
                                    (
                                        name,
                                        k as nat,
                                        i.consist_members@[k]@.map_values(|id: u64| moved_id(a, base, id)),
                                    ),
                            ),
                        ),
                    ),
                }
            },
        }
    }
}

/// What composing the loaded inputs gives: the network input, the metadata
/// input and every asset source must exist (checked in that order); the assets
/// of the sources are renumbered from the first id after the network's nodes
/// and edges; the sources' vehicles and consists follow their assets to the
/// new ids, and a source that refers to an asset it does not have is refused;
/// the diagnostics are every input's, in name order, then a summary.
pub open spec fn composition(spec: ComposeSpec, inputs: KeyMap<LoadedInput>) -> Result<
    CompositionView,
    ComposeErrorView,
> {
    let m = inputs.view();
    let network = spec.network@;
    let metadata = metadata_name(spec);
    let sources = asset_source_names(spec);
    if !m.contains_key(network) {
        Err(unknown_input(network))
    } else if !m.contains_key(metadata) {
        Err(unknown_input(metadata))
    } else if let Some(missing) = first_unknown(sources, m) {
        Err(unknown_input(missing))
    } else if let Err(e) = references_of(sources, m, first_free_id(m[network])) {
        Err(e)
    } else {
        let (vehicles, consists) = references_of(sources, m, first_free_id(m[network]))->Ok_0;
        Ok(
            CompositionView {
                network,
                metadata,
                assets: renumbered(assets_of(sources, m), first_free_id(m[network])),
                vehicles,
                consists,
                diagnostics: diagnostics_upto(inputs, inputs.keys().len() as int).push(
                    DiagnosticView {
                        severity: Severity::Info,
                        code: "RW300_COMPOSED"@,
                        message: msg_composed(network, metadata, sources),
                        provenance: None,
                    },
                ),
            },
        )
    }
}

impl Composition {
    pub open spec fn view(&self) -> CompositionView {
        CompositionView {
            network: self.network@,
            metadata: self.metadata@,
            assets: asset_views(self.assets@),
            vehicles: vehicle_views(self.vehicles@),
            consists: consist_views(self.consists@),
            diagnostics: diagnostic_views(self.diagnostics@),
        }
    }
}

pub open spec fn names_view(v: Seq<String>) -> Seq<Seq<char>> {
    v.map_values(|s: String| s@)
}

proof fn lemma_joined_step(parts: Seq<Seq<char>>, sep: Seq<char>, j: int)
    requires
        0 <= j < parts.len(),
    ensures
        joined(parts.take(j + 1), sep) == if j == 0 {
            parts[0]
        } else {
            joined(parts.take(j), sep) + sep + parts[j]
        },
{
    assert(parts.take(j + 1).drop_last() =~= parts.take(j));
    assert(parts.take(j + 1)[0] == parts[0]);
}

proof fn lemma_sources_step(names: Seq<Seq<char>>, m: Map<Seq<char>, LoadedInput>, j: int)
    requires
        0 <= j < names.len(),
    ensures
        first_unknown(names.take(j + 1), m) == match first_unknown(names.take(j), m) {
            Some(n) => Some(n),
            None => if m.contains_key(names[j]) {
                None
            } else {
                Some(names[j])
            },
        },
        assets_of(names.take(j + 1), m) == assets_of(names.take(j), m) + asset_views(
            m[names[j]].assets@,
        ),
{
    assert(names.take(j + 1).drop_last() =~= names.take(j));
}

proof fn lemma_first_unknown_prefix(names: Seq<Seq<char>>, m: Map<Seq<char>, LoadedInput>, j: int)
    requires
        0 <= j <= names.len(),
        first_unknown(names.take(j), m) is Some,
    ensures
        first_unknown(names, m) == first_unknown(names.take(j), m),
    decreases names.len(),
{
    if j == names.len() {
        assert(names.take(j) =~= names);
    } else {
        assert(names.drop_last().take(j) =~= names.take(j));
        lemma_first_unknown_prefix(names.drop_last(), m, j);
    }
}

fn asset_position(assets: &Vec<AssetRef>, id: u64) -> (r: Option<usize>)
    ensures
        match r {
            Some(k) => first_with_id(asset_views(assets@), id, 0) == Some(k as int),
            None => first_with_id(asset_views(assets@), id, 0) is None,
        },
{
    let ghost a = asset_views(assets@);
    let mut k: usize = 0;
    while k < assets.len()
        invariant
            a == asset_views(assets@),
            k <= assets@.len(),
            first_with_id(a, id, 0) == first_with_id(a, id, k as int),
        decreases assets.len() - k,
    {
        if assets[k].id == id {
            return Some(k);
        }
        k += 1;
    }
    None
}

/// `base + k`, saturating.
fn after(base: u64, k: usize) -> (r: u64)
    ensures
        r == id_after(base, k as nat),
{
    if k as u64 <= u64::MAX - base {
        base + k as u64
    } else {
        u64::MAX
    }
}

fn moved(assets: &Vec<AssetRef>, base: u64, id: u64) -> (r: u64)
    ensures
        r == moved_id(asset_views(assets@), base, id),
{
    match asset_position(assets, id) {
        Some(k) => after(base, k),
        None => base,
    }
}

fn missing_id(assets: &Vec<AssetRef>, ids: &Vec<u64>) -> (r: Option<u64>)
    ensures
        r == missing_from(asset_views(assets@), ids@, 0),
{
    let ghost a = asset_views(assets@);
    let mut k: usize = 0;
    while k < ids.len()
        invariant
            a == asset_views(assets@),
            k <= ids@.len(),
            missing_from(a, ids@, 0) == missing_from(a, ids@, k as int),
        decreases ids.len() - k,
    {
        if asset_position(assets, ids[k]).is_none() {
            return Some(ids[k]);
        }
        k += 1;
    }
    None
}

fn missing_reference(input: &LoadedInput) -> (r: Option<u64>)
    ensures
        r == input_missing(*input),
{
    let ghost a = asset_views(input.assets@);
    let ghost cs = members_views(input.consist_members@);
    if let Some(x) = missing_id(&input.assets, &input.vehicle_assets) {
        return Some(x);
    }
    let mut k: usize = 0;
    while k < input.consist_members.len()
        invariant
            a == asset_views(input.assets@),
            cs == members_views(input.consist_members@),
            k <= cs.len(),
            missing_from(a, input.vehicle_assets@, 0) is None,
            missing_in_consists(a, cs, 0) == missing_in_consists(a, cs, k as int),
        decreases input.consist_members.len() - k,
    {
        assert(cs[k as int] == input.consist_members@[k as int]@);
        if let Some(x) = missing_id(&input.assets, &input.consist_members[k]) {
            return Some(x);
        }
        k += 1;
    }
    None
}

proof fn lemma_references_step(names: Seq<Seq<char>>, m: Map<Seq<char>, LoadedInput>, start: u64, j: int)
    requires
        0 <= j < names.len(),
    ensures
        references_of(names.take(j + 1), m, start) == match references_of(names.take(j), m, start) {
            Err(e) => Err(e),
            Ok((vs, cs)) => {
                let name = names[j];
                let i = m[name];
                let a = asset_views(i.assets@);
                let base = id_after(start, assets_of(names.take(j), m).len());
                match input_missing(i) {
                    Some(id) => Err(dangling_reference(name, id)),
                    None => Ok(
                        (
                            vs + Seq::new(
                                i.vehicle_assets@.len(),
                                |k: int| (name, k as nat, moved_id(a, base, i.vehicle_assets@[k])),
                            ),
                            cs + Seq::new(
                                i.consist_members@.len(),
                                |k: int|
                                    (
                                        name,
                                        k as nat,
                                        i.consist_members@[k]@.map_values(|id: u64| moved_id(a, base, id)),
                                    ),
                            ),
                        ),
                    ),
                }
            },
        },
{
    assert(names.take(j + 1).drop_last() =~= names.take(j));
}

proof fn lemma_references_err_prefix(names: Seq<Seq<char>>, m: Map<Seq<char>, LoadedInput>, start: u64, j: int)
    requires
        0 <= j <= names.len(),
        references_of(names.take(j), m, start) is Err,
    ensures
        references_of(names, m, start) == references_of(names.take(j), m, start),
    decreases names.len(),
{
    if j == names.len() {
        assert(names.take(j) =~= names);
    } else {
        assert(names.drop_last().take(j) =~= names.take(j));
        lemma_references_err_prefix(names.drop_last(), m, start, j);
    }
}

proof fn lemma_first_unknown_none(names: Seq<Seq<char>>, m: Map<Seq<char>, LoadedInput>, j: int)
    requires
        first_unknown(names, m) is None,
        0 <= j < names.len(),
    ensures
        m.contains_key(names[j]),
    decreases names.len(),
{
    if j < names.len() - 1 {
        lemma_first_unknown_none(names.drop_last(), m, j);
    }
}

/// Composes loaded inputs as `spec` says (see `composition`).
pub fn compose_inputs(spec: &ComposeSpec, inputs: &KeyMap<LoadedInput>) -> (r: Result<
    Composition,
    ComposeError,
>)
    ensures
        match r {
            Ok(c) => composition(*spec, *inputs) == Ok::<CompositionView, ComposeErrorView>(c.view()),
            Err(e) => composition(*spec, *inputs) == Err::<CompositionView, ComposeErrorView>(
                e.view(),
            ),
        },
{
    let ghost m = inputs.view();
    let network = match require_input(inputs, spec.network.as_str()) {
        Ok(i) => i,
        Err(e) => {
            return Err(e);
        },
    };
    let metadata: &String = match &spec.metadata {
        Some(name) => name,
        None => &spec.network,
    };
    match require_input(inputs, metadata.as_str()) {
        Ok(_) => {},
        Err(e) => {
            return Err(e);
        },
    }
    let mut sources: Vec<String> = Vec::new();
    if spec.assets.len() == 0 {
        sources.push(spec.network.clone());
    } else {
        let mut j: usize = 0;
        while j < spec.assets.len()
            invariant
                j <= spec.assets@.len(),
                names_view(sources@) == names_view(spec.assets@).take(j as int),
            decreases spec.assets.len() - j,
        {
            let c = spec.assets[j].clone();
            assert(c == spec.assets@[j as int]);
            let ghost before = sources@;
            sources.push(c);
            assert(sources@ == before.push(c));
            assert(names_view(sources@) =~= names_view(before).push(c@));
            assert(names_view(spec.assets@).take(j + 1) =~= names_view(spec.assets@).take(j as int).push(
                spec.assets@[j as int]@,
            ));
            j += 1;
        }
        assert(names_view(spec.assets@).take(j as int) =~= names_view(spec.assets@));
    }
    let ghost names = asset_source_names(*spec);
    assert(names_view(sources@) =~= names);
    let start: u64 = {
        let top = max_entity_id(network.entity_ids.as_slice());
        if top < u64::MAX {
            top + 1
        } else {
            top
        }
    };
    let mut assets: Vec<AssetRef> = Vec::new();
    let mut next = start;
    let mut j: usize = 0;
    assert(names.take(0) =~= Seq::<Seq<char>>::empty());
    assert(asset_views(assets@) =~= renumbered(assets_of(names.take(0), m), start));
    while j < sources.len()
        invariant
            m == inputs.view(),
            names == asset_source_names(*spec),
            names_view(sources@) == names,
            j <= sources@.len(),
            first_unknown(names.take(j as int), m) is None,
            m.contains_key(spec.network@),
            m.contains_key(metadata_name(*spec)),
            asset_views(assets@) == renumbered(assets_of(names.take(j as int), m), start),
            next == id_after(start, assets@.len() as nat),
        decreases sources.len() - j,
    {
        proof {
            lemma_sources_step(names, m, j as int);
        }
        let source = match require_input(inputs, sources[j].as_str()) {
            Ok(i) => i,
            Err(e) => {
                proof {
                    assert(names[j as int] == sources@[j as int]@);
                    lemma_first_unknown_prefix(names, m, j + 1);
                    assert(names.take(j + 1) =~= names.take(j + 1));
                }
                return Err(e);
            },
        };
        let ghost done = asset_views(assets@);
        let mut k: usize = 0;
        while k < source.assets.len()
            invariant
                asset_views(assets@) == renumbered(
                    assets_of(names.take(j as int), m) + asset_views(source.assets@).take(k as int),
                    start,
                ),
                k <= source.assets@.len(),
                next == id_after(start, assets@.len() as nat),
            decreases source.assets.len() - k,
        {
            let mut a = source.assets[k].duplicate();
            a.id = next;
            let ghost before = asset_views(assets@);
            assets.push(a);
            proof {
                let prev = assets_of(names.take(j as int), m) + asset_views(source.assets@).take(
                    k as int,
                );
                let cur = assets_of(names.take(j as int), m) + asset_views(source.assets@).take(
                    k + 1,
                );
                assert(cur =~= prev.push(source.assets@[k as int].view()));
                assert(asset_views(assets@) =~= before.push(a.view()));
                assert(renumbered(cur, start) =~= renumbered(prev, start).push(
                    AssetView { id: id_after(start, prev.len()), ..cur[prev.len() as int] },
                ));
                assert(asset_views(assets@) =~= renumbered(cur, start));
            }
            next = if next < u64::MAX {
                next + 1
            } else {
                next
            };
            k += 1;
        }
        assert(asset_views(source.assets@).take(k as int) =~= asset_views(source.assets@));
        j += 1;
    }
    assert(names.take(j as int) =~= names);
    assert(first_unknown(names, m) is None);
    let mut vehicles: Vec<VehicleRef> = Vec::new();
    let mut consists: Vec<ConsistRef> = Vec::new();
    let mut base: u64 = start;
    let mut j: usize = 0;
    assert(names.take(0) =~= Seq::<Seq<char>>::empty());
    assert(vehicle_views(vehicles@) =~= Seq::<(Seq<char>, nat, u64)>::empty());
    assert(consist_views(consists@) =~= Seq::<(Seq<char>, nat, Seq<u64>)>::empty());
    assert(assets_of(names.take(0), m).len() == 0);
    while j < sources.len()
        invariant
            m == inputs.view(),
            m.contains_key(spec.network@),
            m.contains_key(metadata_name(*spec)),
            start == first_free_id(m[spec.network@]),
            names == asset_source_names(*spec),
            names_view(sources@) == names,
            j <= sources@.len(),
            first_unknown(names, m) is None,
            references_of(names.take(j as int), m, start) == Ok::<
                (Seq<(Seq<char>, nat, u64)>, Seq<(Seq<char>, nat, Seq<u64>)>),
                ComposeErrorView,
            >((vehicle_views(vehicles@), consist_views(consists@))),
            base == id_after(start, assets_of(names.take(j as int), m).len()),
        decreases sources.len() - j,
    {
        proof {
            lemma_references_step(names, m, start, j as int);
            lemma_sources_step(names, m, j as int);
            lemma_first_unknown_none(names, m, j as int);
            assert(names[j as int] == sources@[j as int]@);
        }
        let name = &sources[j];
        let source = match require_input(inputs, name.as_str()) {
            Ok(i) => i,
            Err(e) => {
                return Err(e);
            },
        };
        let ghost a = asset_views(source.assets@);
        if let Some(id) = missing_reference(source) {
            let mut msg: Vec<char> = Vec::new();
            push_str(&mut msg, "input ");
            push_str(&mut msg, debug_quoted(name.as_str()).as_str());
            push_str(&mut msg, " references missing asset ");
            push_number(&mut msg, id);
            proof {
                lemma_references_err_prefix(names, m, start, j + 1);
                assert(msg@ =~= "input "@ + debug_text(name@) + " references missing asset "@ + decimal(id as nat));
            }
            return Err(ComposeError::new("RW311_DANGLING_REFERENCE", string_of(&msg)));
        }
        let ghost vs0 = vehicle_views(vehicles@);
        let mut k: usize = 0;
        while k < source.vehicle_assets.len()
            invariant
                k <= source.vehicle_assets@.len(),
                a == asset_views(source.assets@),
                vehicle_views(vehicles@) == vs0 + Seq::new(
                    k as nat,
                    |q: int| (name@, q as nat, moved_id(a, base, source.vehicle_assets@[q])),
                ),
            decreases source.vehicle_assets.len() - k,
        {
            let r = VehicleRef { input: name.clone(), index: k, asset_id: moved(&source.assets, base, source.vehicle_assets[k]) };
            let ghost before = vehicle_views(vehicles@);
            vehicles.push(r);
            assert(vehicle_views(vehicles@) =~= before.push(r.view()));
            assert(vehicle_views(vehicles@) =~= vs0 + Seq::new(
                (k + 1) as nat,
                |q: int| (name@, q as nat, moved_id(a, base, source.vehicle_assets@[q])),
            ));
            k += 1;
        }
        let ghost cs0 = consist_views(consists@);
        let mut k: usize = 0;
        while k < source.consist_members.len()
            invariant
                k <= source.consist_members@.len(),
                a == asset_views(source.assets@),
                consist_views(consists@) == cs0 + Seq::new(
                    k as nat,
                    |q: int| (name@, q as nat, source.consist_members@[q]@.map_values(|id: u64| moved_id(a, base, id))),
                ),
            decreases source.consist_members.len() - k,
        {
            let ids = &source.consist_members[k];
            let mut members: Vec<u64> = Vec::new();
            let mut q: usize = 0;
            while q < ids.len()
                invariant
                    q <= ids@.len(),
                    a == asset_views(source.assets@),
                    members@ == ids@.take(q as int).map_values(|id: u64| moved_id(a, base, id)),
                decreases ids.len() - q,
            {
                members.push(moved(&source.assets, base, ids[q]));
                assert(ids@.take(q + 1).map_values(|id: u64| moved_id(a, base, id)) =~= ids@.take(q as int).map_values(
                    |id: u64| moved_id(a, base, id),
                ).push(moved_id(a, base, ids@[q as int])));
                q += 1;
            }
            assert(ids@.take(q as int) =~= ids@);
            let r = ConsistRef { input: name.clone(), index: k, members };
            let ghost before = consist_views(consists@);
            consists.push(r);
            assert(consist_views(consists@) =~= before.push(r.view()));
            assert(consist_views(consists@) =~= cs0 + Seq::new(
                (k + 1) as nat,
                |q: int| (name@, q as nat, source.consist_members@[q]@.map_values(|id: u64| moved_id(a, base, id))),
            ));
            k += 1;
        }
        base = after(base, source.assets.len());
        proof {
            assert(asset_views(source.assets@).len() == source.assets@.len());
        }
        j += 1;
    }
    assert(names.take(j as int) =~= names);
    let mut diagnostics: Vec<Diagnostic> = Vec::new();
    let mut i: usize = 0;
    while i < inputs.len()
        invariant
            i <= inputs.keys().len(),
            diagnostic_views(diagnostics@) == diagnostics_upto(*inputs, i as int),
        decreases inputs.keys().len() - i,
    {
        let input = inputs.value_at(i);
        let mut k: usize = 0;
        let ghost done = diagnostic_views(diagnostics@);
        while k < input.diagnostics.len()
            invariant
                k <= input.diagnostics@.len(),
                diagnostic_views(diagnostics@) == done + diagnostic_views(input.diagnostics@).take(
                    k as int,
                ),
            decreases input.diagnostics.len() - k,
        {
            let d = input.diagnostics[k].duplicate();
            let ghost before = diagnostic_views(diagnostics@);
            diagnostics.push(d);
            assert(diagnostic_views(diagnostics@) =~= before.push(d.view()));
            assert(diagnostic_views(diagnostics@) =~= done + diagnostic_views(input.diagnostics@).take(
                k + 1,
            ));
            k += 1;
        }
        assert(diagnostic_views(input.diagnostics@).take(k as int) =~= diagnostic_views(
            input.diagnostics@,
        ));
        i += 1;
    }
    let mut msg: Vec<char> = Vec::new();
    push_str(&mut msg, "composed network from ");
    push_str(&mut msg, debug_quoted(spec.network.as_str()).as_str());
    push_str(&mut msg, ", metadata from ");
    push_str(&mut msg, debug_quoted(metadata.as_str()).as_str());
    push_str(&mut msg, ", assets from [");
    let ghost head = msg@;
    let mut j: usize = 0;
    while j < sources.len()
        invariant
            j <= sources@.len(),
            names_view(sources@) == names,
            msg@ == head + joined(names.take(j as int), ", "@),
        decreases sources.len() - j,
    {
        proof {
            lemma_joined_step(names, ", "@, j as int);
        }
        if j > 0 {
            push_str(&mut msg, ", ");
        }
        push_str(&mut msg, sources[j].as_str());
        assert(msg@ =~= head + joined(names.take(j + 1), ", "@));
        j += 1;
    }
    assert(names.take(j as int) =~= names);
    push_str(&mut msg, "]");
    diagnostics.push(Diagnostic::new(Severity::Info, "RW300_COMPOSED", string_of(&msg)));
    assert(msg@ =~= msg_composed(spec.network@, metadata_name(*spec), names));
    let ghost cv = CompositionView {
        network: spec.network@,
        metadata: metadata_name(*spec),
        assets: asset_views(assets@),
        vehicles: vehicle_views(vehicles@),
        consists: consist_views(consists@),
        diagnostics: diagnostic_views(diagnostics@),
    };
    assert(first_unknown(names, m) is None);
    assert(start == first_free_id(m[spec.network@]));
    assert(asset_views(assets@) == renumbered(assets_of(names, m), first_free_id(m[spec.network@])));
    assert(diagnostic_views(diagnostics@) == diagnostics_upto(*inputs, inputs.keys().len() as int).push(
        DiagnosticView {
            severity: Severity::Info,
            code: "RW300_COMPOSED"@,
            message: msg_composed(spec.network@, metadata_name(*spec), names),
            provenance: None,
        },
    ));
    assert(composition(*spec, *inputs) == Ok::<CompositionView, ComposeErrorView>(cv));
    Ok(Composition { network: spec.network.clone(), metadata: metadata.clone(), assets, vehicles, consists, diagnostics })
}

/// Unless the ids run out, merged assets get distinct ids, ascending in merge
/// order, each larger than every node and edge id of the network input.
pub proof fn law_composed_asset_ids_are_fresh(spec: ComposeSpec, inputs: KeyMap<LoadedInput>)
    requires
        composition(spec, inputs) is Ok,
        max_id(inputs.view()[spec.network@].entity_ids@) + composition(spec, inputs)->Ok_0.assets.len()
            <= u64::MAX,
    ensures
        ({
            let c = composition(spec, inputs)->Ok_0;
            let ids = inputs.view()[spec.network@].entity_ids@;
            &&& forall|i: int, j: int|
                0 <= i < j < c.assets.len() ==> #[trigger] c.assets[i].id < #[trigger] c.assets[j].id
            &&& forall|g: int, k: int|
                0 <= g < c.assets.len() && 0 <= k < ids.len() ==> #[trigger] ids[k]
                    < #[trigger] c.assets[g].id
        }),
{
    let ids = inputs.view()[spec.network@].entity_ids@;
    lemma_max_id_bounds(ids);
}

/// The composed assets hold a copy, under `new_id`, of an asset of `input`
/// whose id was `old_id`.
pub open spec fn refers_to(assets: Seq<AssetView>, input: LoadedInput, old_id: u64, new_id: u64) -> bool {
    exists|g: int, k: int|
        #![trigger assets[g], input.assets@[k]]
        0 <= g < assets.len() && 0 <= k < input.assets@.len() && input.assets@[k].id == old_id && assets[g]
            == (AssetView { id: new_id, ..input.assets@[k].view() })
}

proof fn lemma_first_with_id(a: Seq<AssetView>, id: u64, k0: int)
    requires
        0 <= k0,
        first_with_id(a, id, k0) is Some,
    ensures
        k0 <= first_with_id(a, id, k0)->Some_0 < a.len(),
        a[first_with_id(a, id, k0)->Some_0].id == id,
    decreases a.len() - k0,
{
    if k0 < a.len() && a[k0].id != id {
        lemma_first_with_id(a, id, k0 + 1);
    }
}

proof fn lemma_missing_none(a: Seq<AssetView>, ids: Seq<u64>, k0: int, i: int)
    requires
        0 <= k0 <= i < ids.len(),
        missing_from(a, ids, k0) is None,
    ensures
        first_with_id(a, ids[i], 0) is Some,
    decreases i - k0,
{
    if k0 < i {
        lemma_missing_none(a, ids, k0 + 1, i);
    }
}

proof fn lemma_consists_none(a: Seq<AssetView>, cs: Seq<Seq<u64>>, k0: int, c: int)
    requires
        0 <= k0 <= c < cs.len(),
        missing_in_consists(a, cs, k0) is None,
    ensures
        missing_from(a, cs[c], 0) is None,
    decreases c - k0,
{
    if k0 < c {
        lemma_consists_none(a, cs, k0 + 1, c);
    }
}

/// A reference that the vehicles or consists of an input make is kept: the
/// composed asset at the moved id copies the input's asset with the old id.
proof fn lemma_moved_refers(
    names: Seq<Seq<char>>,
    m: Map<Seq<char>, LoadedInput>,
    start: u64,
    j: int,
    id: u64,
)
    requires
        0 <= j < names.len(),
        first_with_id(asset_views(m[names[j]].assets@), id, 0) is Some,
    ensures
        refers_to(
            renumbered(assets_of(names.take(j + 1), m), start),
            m[names[j]],
            id,
            moved_id(asset_views(m[names[j]].assets@), id_after(start, assets_of(names.take(j), m).len()), id),
        ),
{
    lemma_sources_step(names, m, j);
    let i = m[names[j]];
    let a = asset_views(i.assets@);
    let before = assets_of(names.take(j), m);
    let all = assets_of(names.take(j + 1), m);
    let k = first_with_id(a, id, 0)->Some_0;
    lemma_first_with_id(a, id, 0);
    let g = before.len() + k;
    assert(all[g] == a[k]);
    let r = renumbered(all, start);
    assert(r[g] == AssetView { id: id_after(start, g as nat), ..all[g] });
    assert(id_after(id_after(start, before.len()), k as nat) == id_after(start, g as nat));
    assert(r[g] == (AssetView { id: moved_id(a, id_after(start, before.len()), id), ..i.assets@[k].view() }));
}

proof fn lemma_kept_after(
    names: Seq<Seq<char>>,
    m: Map<Seq<char>, LoadedInput>,
    start: u64,
    j: int,
    input: LoadedInput,
    old_id: u64,
    new_id: u64,
)
    requires
        0 <= j < names.len(),
        refers_to(renumbered(assets_of(names.take(j), m), start), input, old_id, new_id),
    ensures
        refers_to(renumbered(assets_of(names.take(j + 1), m), start), input, old_id, new_id),
{
    lemma_sources_step(names, m, j);
    let before = renumbered(assets_of(names.take(j), m), start);
    let after = renumbered(assets_of(names.take(j + 1), m), start);
    let (g, k) = choose|g: int, k: int|
        #![trigger before[g], input.assets@[k]]
        0 <= g < before.len() && 0 <= k < input.assets@.len() && input.assets@[k].id == old_id && before[g]
            == (AssetView { id: new_id, ..input.assets@[k].view() });
    assert(after[g] == before[g]);
}

proof fn lemma_references_kept(names: Seq<Seq<char>>, m: Map<Seq<char>, LoadedInput>, start: u64, n: int)
    requires
        0 <= n <= names.len(),
        references_of(names.take(n), m, start) is Ok,
    ensures
        ({
            let (vs, cs) = references_of(names.take(n), m, start)->Ok_0;
            let r = renumbered(assets_of(names.take(n), m), start);
            &&& forall|p: int|
                #![trigger vs[p]]
                0 <= p < vs.len() ==> vs[p].1 < m[vs[p].0].vehicle_assets@.len() && refers_to(
                    r,
                    m[vs[p].0],
                    m[vs[p].0].vehicle_assets@[vs[p].1 as int],
                    vs[p].2,
                )
            &&& forall|p: int|
                #![trigger cs[p]]
                0 <= p < cs.len() ==> cs[p].1 < m[cs[p].0].consist_members@.len() && cs[p].2.len()
                    == m[cs[p].0].consist_members@[cs[p].1 as int]@.len()
            &&& forall|p: int, q: int|
                0 <= p < cs.len() && 0 <= q < cs[p].2.len() ==> refers_to(
                    r,
                    m[cs[p].0],
                    m[cs[p].0].consist_members@[cs[p].1 as int]@[q],
                    #[trigger] cs[p].2[q],
                )
        }),
    decreases n,
{
    if n == 0 {
        assert(names.take(0) =~= Seq::<Seq<char>>::empty());
    } else {
        let j = n - 1;
        lemma_references_step(names, m, start, j);
        assert(j + 1 == n);
        let (vs0, cs0) = references_of(names.take(j), m, start)->Ok_0;
        lemma_references_kept(names, m, start, j);
        let name = names[j];
        let i = m[name];
        let a = asset_views(i.assets@);
        let base = id_after(start, assets_of(names.take(j), m).len());
        let (vs, cs) = references_of(names.take(n), m, start)->Ok_0;
        let r = renumbered(assets_of(names.take(n), m), start);
        assert forall|p: int| #![trigger vs[p]] 0 <= p < vs.len() implies vs[p].1 < m[vs[p].0].vehicle_assets@.len() && refers_to(
            r,
            m[vs[p].0],
            m[vs[p].0].vehicle_assets@[vs[p].1 as int],
            vs[p].2,
        ) by {
            if p < vs0.len() {
                assert(vs[p] == vs0[p]);
                lemma_kept_after(names, m, start, j, m[vs[p].0], m[vs[p].0].vehicle_assets@[vs[p].1 as int], vs[p].2);
            } else {
                let idx = p - vs0.len();
                assert(vs[p] == (name, idx as nat, moved_id(a, base, i.vehicle_assets@[idx])));
                lemma_missing_none(a, i.vehicle_assets@, 0, idx);
                lemma_moved_refers(names, m, start, j, i.vehicle_assets@[idx]);
            }
        }
        assert forall|p: int| #![trigger cs[p]] 0 <= p < cs.len() implies cs[p].1 < m[cs[p].0].consist_members@.len()
            && cs[p].2.len() == m[cs[p].0].consist_members@[cs[p].1 as int]@.len() by {
            if p < cs0.len() {
                assert(cs[p] == cs0[p]);
            }
        }
        assert forall|p: int, q: int| 0 <= p < cs.len() && 0 <= q < cs[p].2.len() implies refers_to(
            r,
            m[cs[p].0],
            m[cs[p].0].consist_members@[cs[p].1 as int]@[q],
            #[trigger] cs[p].2[q],
        ) by {
            if p < cs0.len() {
                assert(cs[p] == cs0[p]);
                lemma_kept_after(names, m, start, j, m[cs[p].0], m[cs[p].0].consist_members@[cs[p].1 as int]@[q], cs[p].2[q]);
            } else {
                let idx = p - cs0.len();
                let ids = i.consist_members@[idx]@;
                assert(cs[p] == (name, idx as nat, ids.map_values(|id: u64| moved_id(a, base, id))));
                assert(members_views(i.consist_members@)[idx] == ids);
                lemma_consists_none(a, members_views(i.consist_members@), 0, idx);
                lemma_missing_none(a, ids, 0, q);
                lemma_moved_refers(names, m, start, j, ids[q]);
            }
        }
    }
}

/// Law: composition keeps every vehicle and consist reference. Each composed
/// vehicle, and each member of a composed consist, stands for a vehicle or
/// member of its input, and the composed asset at its new id is a copy of the
/// input's asset that the vehicle or member referred to.
pub proof fn law_composed_references_are_kept(spec: ComposeSpec, inputs: KeyMap<LoadedInput>)
    requires
        composition(spec, inputs) is Ok,
    ensures
        ({
            let c = composition(spec, inputs)->Ok_0;
            let m = inputs.view();
            &&& forall|p: int|
                #![trigger c.vehicles[p]]
                0 <= p < c.vehicles.len() ==> c.vehicles[p].1 < m[c.vehicles[p].0].vehicle_assets@.len() && refers_to(
                    c.assets,
                    m[c.vehicles[p].0],
                    m[c.vehicles[p].0].vehicle_assets@[c.vehicles[p].1 as int],
                    c.vehicles[p].2,
                )
            &&& forall|p: int|
                #![trigger c.consists[p]]
                0 <= p < c.consists.len() ==> c.consists[p].1 < m[c.consists[p].0].consist_members@.len()
                    && c.consists[p].2.len() == m[c.consists[p].0].consist_members@[c.consists[p].1 as int]@.len()
            &&& forall|p: int, q: int|
                0 <= p < c.consists.len() && 0 <= q < c.consists[p].2.len() ==> refers_to(
                    c.assets,
                    m[c.consists[p].0],
                    m[c.consists[p].0].consist_members@[c.consists[p].1 as int]@[q],
                    #[trigger] c.consists[p].2[q],
                )
        }),
{
    let m = inputs.view();
    let names = asset_source_names(spec);
    let start = first_free_id(m[spec.network@]);
    assert(names.take(names.len() as int) =~= names);
    lemma_references_kept(names, m, start, names.len() as int);
}

} // verus!
