//! `/etc/detguest/boot.toml`: parse and validation.
//!
//! This crate owns the format; the agent is its only parser. Any
//! violation is a boot fault: the caller logs the detail, never emits
//! `Ready`, and powers off.
//!
//! Parsing uses the deterministic TOML-subset parser of `tiny`, which
//! draws no entropy and covers exactly the manifest schema.
use crate::agent::tiny::{
    lemma_values_model, parse_doc, spec_lookup, spec_parse_doc, values_model, Table, Value,
    ValueModel,
};
use crate::text::{
    chars_eq, chars_of, push_chars, push_dec, push_dec_signed, push_str, spec_dec,
    spec_dec_signed, spec_utf8_len, str_debug_text, string_from_chars, utf8_len,
};
use crate::wire::manifest::MAX_REGION_NAME;
use vstd::prelude::*;

verus! {

/// Major version this agent speaks (an unknown major is a boot fault).
pub const BOOT_TOML_MAJOR: i64 = 1;

/// One preconfigured workload entry (`[[unit]]`).
#[derive(Debug, Clone, PartialEq, Eq)]
pub struct Unit {
    /// Dense id from 0, unique.
    pub id: u32,
    /// Absolute path inside the image (the manifest's `exec` key).
    pub exec_path: String,
    /// argv (after argv0); never sent over the wire.
    pub args: Vec<String>,
    /// Initial LogLine mask (SetLogMask overrides). Default 0x1F.
    pub log_mask: u32,
    /// Harness control protocol.
    pub control: Option<UnitControl>,
}

/// `[unit.control]`: present when the unit speaks the harness control
/// protocol and the agent drives its leg.
#[derive(Debug, Clone, PartialEq, Eq)]
pub struct UnitControl {
    /// Open identifier; v1 defines only `refwork-ctl`.
    pub protocol: String,
    /// Must equal the version the agent speaks.
    pub proto_version: u32,
    /// The logical game device name (required for refwork-ctl). Sent
    /// verbatim as LoadGame.dev_path unless `game_source` overrides it.
    pub game_dev: Option<String>,
    /// Where the game bytes come from. `Some(PvBlk)`: the agent
    /// materializes the image from the pv-blk MMIO device before LoadGame
    /// and sends that path; `None`: `game_dev` is sent verbatim.
    pub game_source: Option<GameSource>,
}

/// `[unit.control].game_source` values (an enum so unknown values die in
/// the parser, not deep in the boot sequence).
#[derive(Debug, Clone, Copy, PartialEq, Eq, Structural)]
pub enum GameSource {
    /// Materialize from the pv-blk MMIO device.
    PvBlk,
}

/// `[[expected_region]]`: the READY gate.
#[derive(Debug, Clone, PartialEq, Eq)]
pub struct ExpectedRegion {
    /// Region name (at most 56 bytes, the manifest cap).
    pub name: String,
    /// Must match the manifest entry exactly; mismatch is a boot fault.
    pub layout_version: u32,
}

/// The parsed, validated boot manifest.
#[derive(Debug, Clone, PartialEq, Eq)]
pub struct BootManifest {
    /// `[autostart].unit` if configured.
    pub autostart_unit: Option<u32>,
    /// All `[[unit]]` entries, sorted by id (dense from 0).
    pub units: Vec<Unit>,
    /// The READY gate region list (may be empty).
    pub expected_regions: Vec<ExpectedRegion>,
}

/// A manifest violation: the detail string goes out as the boot-fault
/// LogLine.
#[derive(Debug, Clone, PartialEq, Eq)]
pub struct BootFault(pub String);

/// The views of a sequence of strings.
pub open spec fn strings_view(v: Seq<String>) -> Seq<Seq<char>> {
    v.map_values(|s: String| s@)
}

/// The mathematical form of `UnitControl`.
pub struct UnitControlModel {
    pub protocol: Seq<char>,
    pub proto_version: u32,
    pub game_dev: Option<Seq<char>>,
    pub game_source: Option<GameSource>,
}

/// The mathematical form of `Unit`.
pub struct UnitModel {
    pub id: u32,
    pub exec_path: Seq<char>,
    pub args: Seq<Seq<char>>,
    pub log_mask: u32,
    pub control: Option<UnitControlModel>,
}

/// The mathematical form of `ExpectedRegion`.
pub struct RegionModel {
    pub name: Seq<char>,
    pub layout_version: u32,
}

/// The mathematical form of `BootManifest`.
pub struct ManifestModel {
    pub autostart_unit: Option<u32>,
    pub units: Seq<UnitModel>,
    pub expected_regions: Seq<RegionModel>,
}

/// The view of an optional string.
pub open spec fn opt_string_view(s: Option<String>) -> Option<Seq<char>> {
    match s {
        Some(x) => Some(x@),
        None => None,
    }
}

impl View for UnitControl {
    type V = UnitControlModel;

    open spec fn view(&self) -> UnitControlModel {
        UnitControlModel {
            protocol: self.protocol@,
            proto_version: self.proto_version,
            game_dev: opt_string_view(self.game_dev),
            game_source: self.game_source,
        }
    }
}

impl View for Unit {
    type V = UnitModel;

    open spec fn view(&self) -> UnitModel {
        UnitModel {
            id: self.id,
            exec_path: self.exec_path@,
            args: strings_view(self.args@),
            log_mask: self.log_mask,
            control: match self.control {
                Some(c) => Some(c@),
                None => None,
            },
        }
    }
}

impl View for ExpectedRegion {
    type V = RegionModel;

    open spec fn view(&self) -> RegionModel {
        RegionModel { name: self.name@, layout_version: self.layout_version }
    }
}

/// The views of a sequence of units.
pub open spec fn units_view(v: Seq<Unit>) -> Seq<UnitModel> {
    v.map_values(|u: Unit| u@)
}

/// The views of a sequence of regions.
pub open spec fn regions_view(v: Seq<ExpectedRegion>) -> Seq<RegionModel> {
    v.map_values(|r: ExpectedRegion| r@)
}

impl View for BootManifest {
    type V = ManifestModel;

    open spec fn view(&self) -> ManifestModel {
        ManifestModel {
            autostart_unit: self.autostart_unit,
            units: units_view(self.units@),
            expected_regions: regions_view(self.expected_regions@),
        }
    }
}

/// The integer in `v`, if it is one within `u32`.
pub open spec fn spec_u32_of(v: Option<ValueModel>) -> Option<u32> {
    match v {
        Some(ValueModel::Int(i)) => if 0 <= i <= u32::MAX {
            Some(i as u32)
        } else {
            None
        },
        _ => None,
    }
}

/// The string in `v`, if it is one.
pub open spec fn spec_str_of(v: Option<ValueModel>) -> Option<Seq<char>> {
    match v {
        Some(ValueModel::Str(s)) => Some(s),
        _ => None,
    }
}

/// `unit[i]`, the start of a unit's error messages.
pub open spec fn spec_unit_at(i: nat) -> Seq<char> {
    "unit["@ + spec_dec(i) + "]"@
}

/// `[unit.control]` of unit `i`, from its table `ct`.
pub open spec fn spec_control(ct: Seq<(Seq<char>, ValueModel)>, i: nat) -> Result<
    UnitControlModel,
    Seq<char>,
> {
    let at = spec_unit_at(i);
    match spec_str_of(spec_lookup(ct, "protocol"@)) {
        None => Err(at + ".control: missing protocol"@),
        Some(protocol) => match spec_u32_of(spec_lookup(ct, "proto_version"@)) {
            None => Err(at + ".control: missing u32 proto_version"@),
            Some(proto_version) => {
                let game_dev = spec_str_of(spec_lookup(ct, "game_dev"@));
                if protocol == "refwork-ctl"@ && game_dev is None {
                    Err(at + ".control: game_dev required for refwork-ctl"@)
                } else {
                    let gs: Result<Option<GameSource>, Seq<char>> = match spec_lookup(
                        ct,
                        "game_source"@,
                    ) {
                        None => Ok(None),
                        Some(ValueModel::Str(s)) => if s == "pv-blk"@ {
                            Ok(Some(GameSource::PvBlk))
                        } else {
                            Err(
                                at + ".control: unknown game_source "@ + str_debug_text(s)
                                    + " (v1 knows \"pv-blk\")"@,
                            )
                        },
                        Some(_) => Err(at + ".control: game_source must be a string"@),
                    };
                    match gs {
                        Ok(game_source) => Ok(
                            UnitControlModel { protocol, proto_version, game_dev, game_source },
                        ),
                        Err(e) => Err(e),
                    }
                }
            },
        },
    }
}

/// The string items of `a`, or `None` if one is not a string.
pub open spec fn spec_strings(a: Seq<ValueModel>) -> Option<Seq<Seq<char>>>
    decreases a.len(),
{
    if a.len() == 0 {
        Some(Seq::empty())
    } else {
        match (spec_strings(a.subrange(0, a.len() - 1)), a[a.len() - 1]) {
            (Some(r), ValueModel::Str(s)) => Some(r.push(s)),
            _ => None,
        }
    }
}

/// Unit `i`, from its value `u`.
pub open spec fn spec_unit(u: ValueModel, i: nat) -> Result<UnitModel, Seq<char>> {
    let at = spec_unit_at(i);
    match u {
        ValueModel::Table(t) => match spec_lookup(t, "id"@) {
            Some(ValueModel::Int(id)) => if id < 0 || id > u32::MAX {
                Err(at + ": id out of range"@)
            } else {
                match spec_str_of(spec_lookup(t, "exec"@)) {
                    None => Err(at + ": missing string exec"@),
                    Some(path) => if !(path.len() > 0 && path[0] == '/') {
                        Err(
                            at + ": exec must be an absolute path inside the image (got "@
                                + str_debug_text(path) + ")"@,
                        )
                    } else {
                        let args: Result<Seq<Seq<char>>, Seq<char>> = match spec_lookup(
                            t,
                            "args"@,
                        ) {
                            None => Ok(Seq::empty()),
                            Some(ValueModel::Array(a)) => match spec_strings(a) {
                                Some(ss) => Ok(ss),
                                None => Err(at + ": args must be strings"@),
                            },
                            Some(_) => Err(at + ": args must be an array"@),
                        };
                        match args {
                            Err(e) => Err(e),
                            Ok(args) => {
                                let mask: Result<u32, Seq<char>> = match spec_lookup(
                                    t,
                                    "log_mask"@,
                                ) {
                                    None => Ok(0x1Fu32),
                                    Some(v) => match spec_u32_of(Some(v)) {
                                        Some(m) => Ok(m),
                                        None => Err(at + ": log_mask must be a u32"@),
                                    },
                                };
                                match mask {
                                    Err(e) => Err(e),
                                    Ok(log_mask) => {
                                        let control: Result<
                                            Option<UnitControlModel>,
                                            Seq<char>,
                                        > = match spec_lookup(t, "control"@) {
                                            None => Ok(None),
                                            Some(ValueModel::Table(ct)) => match spec_control(
                                                ct,
                                                i,
                                            ) {
                                                Ok(c) => Ok(Some(c)),
                                                Err(e) => Err(e),
                                            },
                                            Some(_) => Err(at + ".control must be a table"@),
                                        };
                                        match control {
                                            Err(e) => Err(e),
                                            Ok(control) => Ok(
                                                UnitModel {
                                                    id: id as u32,
                                                    exec_path: path,
                                                    args,
                                                    log_mask,
                                                    control,
                                                },
                                            ),
                                        }
                                    },
                                }
                            },
                        }
                    },
                }
            },
            _ => Err(at + ": missing integer id"@),
        },
        _ => Err(at + " must be a table"@),
    }
}

/// The units of `arr` from `i` on.
pub open spec fn spec_units_from(arr: Seq<ValueModel>, i: nat) -> Result<
    Seq<UnitModel>,
    Seq<char>,
>
    decreases arr.len() - i,
{
    if i >= arr.len() {
        Ok(Seq::empty())
    } else {
        match spec_unit(arr[i as int], i) {
            Err(e) => Err(e),
            Ok(u) => match spec_units_from(arr, i + 1) {
                Ok(rest) => Ok(seq![u] + rest),
                Err(e) => Err(e),
            },
        }
    }
}

/// `t` (sorted by id) with `x` inserted after the units whose id is not
/// above its own.
pub open spec fn spec_insert_unit(t: Seq<UnitModel>, x: UnitModel) -> Seq<UnitModel>
    decreases t.len(),
{
    if t.len() == 0 {
        seq![x]
    } else if x.id < t[0].id {
        seq![x] + t
    } else {
        seq![t[0]] + spec_insert_unit(t.subrange(1, t.len() as int), x)
    }
}

/// `s` sorted by id, stably.
pub open spec fn spec_sort_units(s: Seq<UnitModel>) -> Seq<UnitModel>
    decreases s.len(),
{
    if s.len() == 0 {
        Seq::empty()
    } else {
        spec_insert_unit(spec_sort_units(s.subrange(0, s.len() - 1)), s[s.len() - 1])
    }
}

/// The decimal renderings of `ids` joined by `, `.
pub open spec fn spec_join_ids(ids: Seq<u32>) -> Seq<char>
    decreases ids.len(),
{
    if ids.len() == 0 {
        Seq::empty()
    } else if ids.len() == 1 {
        spec_dec(ids[0] as nat)
    } else {
        spec_join_ids(ids.subrange(0, ids.len() - 1)) + ", "@ + spec_dec(
            ids[ids.len() - 1] as nat,
        )
    }
}

/// `format!("{:?}", ids)` for a `Vec<u32>`.
pub open spec fn spec_ids_debug(ids: Seq<u32>) -> Seq<char> {
    "["@ + spec_join_ids(ids) + "]"@
}

/// Whether the sorted units have ids `0, 1, 2, ...`.
pub open spec fn spec_dense(sorted: Seq<UnitModel>) -> bool {
    forall|k: int| 0 <= k < sorted.len() ==> #[trigger] sorted[k].id == k
}

/// Region `i` of `[[expected_region]]`, after the regions `prev`.
pub open spec fn spec_region(r: ValueModel, i: nat, prev: Seq<RegionModel>) -> Result<
    RegionModel,
    Seq<char>,
> {
    let at = "expected_region["@ + spec_dec(i) + "]"@;
    match r {
        ValueModel::Table(t) => match spec_str_of(spec_lookup(t, "name"@)) {
            None => Err(at + ": missing string name"@),
            Some(name) => if spec_utf8_len(name) > MAX_REGION_NAME {
                Err(at + ": name exceeds the 56-byte manifest cap"@)
            } else if exists|j: int| 0 <= j < prev.len() && #[trigger] prev[j].name == name {
                Err("duplicate expected_region name "@ + str_debug_text(name))
            } else {
                match spec_u32_of(spec_lookup(t, "layout_version"@)) {
                    None => Err(at + ": missing u32 layout_version"@),
                    Some(layout_version) => Ok(RegionModel { name, layout_version }),
                }
            },
        },
        _ => Err(at + " must be a table"@),
    }
}

/// The regions of `arr` from `i` on, after the regions `acc`.
pub open spec fn spec_regions_from(arr: Seq<ValueModel>, i: nat, acc: Seq<RegionModel>) -> Result<
    Seq<RegionModel>,
    Seq<char>,
>
    decreases arr.len() - i,
{
    if i >= arr.len() {
        Ok(acc)
    } else {
        match spec_region(arr[i as int], i, acc) {
            Err(e) => Err(e),
            Ok(r) => spec_regions_from(arr, i + 1, acc.push(r)),
        }
    }
}

/// `[autostart]`, given the sorted units.
pub open spec fn spec_autostart(v: Option<ValueModel>, units: Seq<UnitModel>) -> Result<
    Option<u32>,
    Seq<char>,
> {
    match v {
        None => Ok(None),
        Some(ValueModel::Table(t)) => match spec_u32_of(spec_lookup(t, "unit"@)) {
            None => Err("autostart: missing u32 unit"@),
            Some(id) => if exists|k: int| 0 <= k < units.len() && #[trigger] units[k].id == id {
                Ok(Some(id))
            } else {
                Err("autostart references nonexistent unit id "@ + spec_dec(id as nat))
            },
        },
        Some(_) => Err("autostart must be a table"@),
    }
}

/// The manifest from the parsed document table `t`.
pub open spec fn spec_manifest(t: Seq<(Seq<char>, ValueModel)>) -> Result<ManifestModel, Seq<char>> {
    match spec_lookup(t, "boot_toml_version"@) {
        None => Err("missing required boot_toml_version"@),
        Some(ValueModel::Int(version)) => if version != BOOT_TOML_MAJOR {
            Err(
                "unknown boot_toml_version major "@ + spec_dec_signed(version as int)
                    + " (agent speaks 1)"@,
            )
        } else {
            let units: Result<Seq<UnitModel>, Seq<char>> = match spec_lookup(t, "unit"@) {
                None => Ok(Seq::empty()),
                Some(ValueModel::Array(arr)) => spec_units_from(arr, 0),
                Some(_) => Err("unit must be an array of tables"@),
            };
            match units {
                Err(e) => Err(e),
                Ok(units) => {
                    let sorted = spec_sort_units(units);
                    if !spec_dense(sorted) {
                        Err(
                            "unit ids must be dense from 0 and unique (got "@ + spec_ids_debug(
                                sorted.map_values(|u: UnitModel| u.id),
                            ) + ")"@,
                        )
                    } else {
                        match spec_autostart(spec_lookup(t, "autostart"@), sorted) {
                            Err(e) => Err(e),
                            Ok(autostart_unit) => {
                                let regions: Result<Seq<RegionModel>, Seq<char>> = match spec_lookup(
                                    t,
                                    "expected_region"@,
                                ) {
                                    None => Ok(Seq::empty()),
                                    Some(ValueModel::Array(arr)) => spec_regions_from(
                                        arr,
                                        0,
                                        Seq::empty(),
                                    ),
                                    Some(_) => Err("expected_region must be an array of tables"@),
                                };
                                match regions {
                                    Err(e) => Err(e),
                                    Ok(expected_regions) => Ok(
                                        ManifestModel {
                                            autostart_unit,
                                            units: sorted,
                                            expected_regions,
                                        },
                                    ),
                                }
                            },
                        }
                    }
                },
            }
        },
        Some(_) => Err("boot_toml_version must be an integer"@),
    }
}

/// What `parse` makes of the text `s`: the manifest, or the fault detail.
pub open spec fn spec_parse(s: Seq<char>) -> Result<ManifestModel, Seq<char>> {
    match spec_parse_doc(s) {
        Err(e) => Err("parse error: "@ + e),
        Ok(t) => spec_manifest(t),
    }
}

/// The fault carrying the detail `m`.
fn fault(m: &[char]) -> (f: BootFault)
    ensures
        f.0@ == m@,
{
    BootFault(string_from_chars(m))
}

/// The message `at` followed by `tail`.
fn at_msg(at: &[char], tail: &str) -> (r: Vec<char>)
    ensures
        r@ == at@ + tail@,
{
    let mut m: Vec<char> = Vec::new();
    push_chars(&mut m, at);
    push_str(&mut m, tail);
    proof {
        assert(m@ =~= at@ + tail@);
    }
    m
}

/// `unit[i]`.
fn unit_at(i: usize) -> (r: Vec<char>)
    ensures
        r@ == spec_unit_at(i as nat),
{
    let mut m = chars_of("unit[");
    push_dec(&mut m, i as u128);
    push_str(&mut m, "]");
    m
}

/// The integer under `key` in `t`, if it is one within `u32`.
fn get_u32(t: &Table, key: &str) -> (r: Option<u32>)
    ensures
        r == spec_u32_of(spec_lookup(t@, key@)),
{
    match t.get(key) {
        None => None,
        Some(v) => match v.as_integer() {
            Some(x) => if 0 <= x && x <= 0xFFFF_FFFFi64 {
                Some(x as u32)
            } else {
                None
            },
            None => None,
        },
    }
}

/// The string under `key` in `t`, if it is one.
fn get_str(t: &Table, key: &str) -> (r: Option<String>)
    ensures
        opt_string_view(r) == spec_str_of(spec_lookup(t@, key@)),
{
    match t.get(key) {
        None => None,
        Some(v) => match v.as_str() {
            Some(x) => Some(x.to_owned()),
            None => None,
        },
    }
}

/// Whether the string `s` holds exactly the characters of `lit`.
fn str_is(s: &str, lit: &str) -> (r: bool)
    ensures
        r == (s@ == lit@),
{
    let a = chars_of(s);
    let b = chars_of(lit);
    chars_eq(a.as_slice(), b.as_slice())
}

/// `[unit.control]` of unit `i`.
fn parse_control(ct: &Table, i: usize) -> (r: Result<UnitControl, Vec<char>>)
    ensures
        match spec_control(ct@, i as nat) {
            Ok(c) => r matches Ok(x) && x@ == c,
            Err(e) => r matches Err(m) && m@ == e,
        },
{
    let at = unit_at(i);
    let protocol = match get_str(ct, "protocol") {
        Some(p) => p,
        None => {
            return Err(at_msg(at.as_slice(), ".control: missing protocol"));
        },
    };
    let proto_version = match get_u32(ct, "proto_version") {
        Some(v) => v,
        None => {
            return Err(at_msg(at.as_slice(), ".control: missing u32 proto_version"));
        },
    };
    let game_dev = get_str(ct, "game_dev");
    if str_is(protocol.as_str(), "refwork-ctl") && game_dev.is_none() {
        return Err(at_msg(at.as_slice(), ".control: game_dev required for refwork-ctl"));
    }
    let game_source = match ct.get("game_source") {
        None => None,
        Some(v) => match v.as_str() {
            Some(gs) => {
                if str_is(gs, "pv-blk") {
                    Some(GameSource::PvBlk)
                } else {
                    let mut m = at_msg(at.as_slice(), ".control: unknown game_source ");
                    let gc = chars_of(gs);
                    let d = crate::text::debug_chars(gc.as_slice());
                    push_chars(&mut m, d.as_slice());
                    push_str(&mut m, " (v1 knows \"pv-blk\")");
                    return Err(m);
                }
            },
            None => {
                return Err(at_msg(at.as_slice(), ".control: game_source must be a string"));
            },
        },
    };
    Ok(UnitControl { protocol, proto_version, game_dev, game_source })
}

/// The strings of the array `a`, or `None` if an item is not a string.
fn strings_of(a: &Vec<Value>) -> (r: Option<Vec<String>>)
    ensures
        match spec_strings(values_model(a@)) {
            Some(ss) => r matches Some(v) && strings_view(v@) == ss,
            None => r is None,
        },
{
    proof {
        lemma_values_model(a@);
    }
    let ghost am = values_model(a@);
    let mut out: Vec<String> = Vec::new();
    let mut k: usize = 0;
    proof {
        assert(am.subrange(0, 0) =~= Seq::<ValueModel>::empty());
        assert(strings_view(out@) =~= Seq::<Seq<char>>::empty());
    }
    while k < a.len()
        invariant
            k <= a@.len(),
            am == values_model(a@),
            am.len() == a@.len(),
            forall|j: int| 0 <= j < a@.len() ==> #[trigger] am[j] == a@[j]@,
            spec_strings(am.subrange(0, k as int)) == Some(strings_view(out@)),
        decreases a@.len() - k,
    {
        proof {
            assert(am.subrange(0, k + 1).subrange(0, k as int) =~= am.subrange(0, k as int));
        }
        match a[k].as_str() {
            Some(x) => {
                let ghost before = out@;
                out.push(x.to_owned());
                proof {
                    assert(strings_view(out@) =~= strings_view(before).push(x@));
                }
            },
            None => {
                proof {
                    assert(spec_strings(am.subrange(0, k + 1)) is None);
                    assert forall|j: int| k + 1 <= j <= am.len() implies #[trigger] spec_strings(
                        am.subrange(0, j),
                    ) is None by {
                        lemma_strings_none_extends(am, k as int + 1, j);
                    }
                    assert(am.subrange(0, am.len() as int) =~= am);
                }
                return None;
            },
        }
        k = k + 1;
    }
    proof {
        assert(am.subrange(0, am.len() as int) =~= am);
    }
    Some(out)
}

/// Once a prefix has a non-string, every longer prefix has one.
proof fn lemma_strings_none_extends(am: Seq<ValueModel>, i: int, j: int)
    requires
        0 <= i <= j <= am.len(),
        spec_strings(am.subrange(0, i)) is None,
    ensures
        spec_strings(am.subrange(0, j)) is None,
    decreases j - i,
{
    if j > i {
        lemma_strings_none_extends(am, i, j - 1);
        assert(am.subrange(0, j).subrange(0, j - 1) =~= am.subrange(0, j - 1));
    }
}

/// Unit `i`.
fn parse_unit(u: &Value, i: usize) -> (r: Result<Unit, Vec<char>>)
    ensures
        match spec_unit(u@, i as nat) {
            Ok(m) => r matches Ok(x) && x@ == m,
            Err(e) => r matches Err(m) && m@ == e,
        },
{
    let at = unit_at(i);
    let t = match u.as_table() {
        Some(t) => t,
        None => {
            return Err(at_msg(at.as_slice(), " must be a table"));
        },
    };
    let id = match t.get("id") {
        Some(v) => match v.as_integer() {
            Some(x) => x,
            None => {
                return Err(at_msg(at.as_slice(), ": missing integer id"));
            },
        },
        None => {
            return Err(at_msg(at.as_slice(), ": missing integer id"));
        },
    };
    if id < 0 || id > 0xFFFF_FFFFi64 {
        return Err(at_msg(at.as_slice(), ": id out of range"));
    }
    let exec_path = match get_str(t, "exec") {
        Some(p) => p,
        None => {
            return Err(at_msg(at.as_slice(), ": missing string exec"));
        },
    };
    let ec = chars_of(exec_path.as_str());
    if !(ec.len() > 0 && ec[0] == '/') {
        let mut m = at_msg(at.as_slice(), ": exec must be an absolute path inside the image (got ");
        let d = crate::text::debug_chars(ec.as_slice());
        push_chars(&mut m, d.as_slice());
        push_str(&mut m, ")");
        return Err(m);
    }
    let args = match t.get("args") {
        None => Vec::new(),
        Some(v) => match v.as_array() {
            Some(a) => match strings_of(a) {
                Some(ss) => ss,
                None => {
                    return Err(at_msg(at.as_slice(), ": args must be strings"));
                },
            },
            None => {
                return Err(at_msg(at.as_slice(), ": args must be an array"));
            },
        },
    };
    proof {
        assert(strings_view(Seq::<String>::empty()) =~= Seq::<Seq<char>>::empty());
    }
    let log_mask = match t.get("log_mask") {
        None => 0x1Fu32,
        Some(_) => match get_u32(t, "log_mask") {
            Some(m) => m,
            None => {
                return Err(at_msg(at.as_slice(), ": log_mask must be a u32"));
            },
        },
    };
    let control = match t.get("control") {
        None => None,
        Some(v) => match v.as_table() {
            Some(ct) => match parse_control(ct, i) {
                Ok(c) => Some(c),
                Err(e) => {
                    return Err(e);
                },
            },
            None => {
                return Err(at_msg(at.as_slice(), ".control must be a table"));
            },
        },
    };
    Ok(Unit { id: id as u32, exec_path, args, log_mask, control })
}

/// The first position in `t` whose id is above `id`.
pub open spec fn spec_first_above(t: Seq<UnitModel>, id: u32) -> int
    decreases t.len(),
{
    if t.len() == 0 {
        0
    } else if id < t[0].id {
        0
    } else {
        1 + spec_first_above(t.subrange(1, t.len() as int), id)
    }
}

/// Inserting a unit puts it at the first position whose id is above its
/// own.
proof fn lemma_insert_unit(t: Seq<UnitModel>, x: UnitModel)
    ensures
        0 <= spec_first_above(t, x.id) <= t.len(),
        spec_insert_unit(t, x) == t.insert(spec_first_above(t, x.id), x),
    decreases t.len(),
{
    if t.len() == 0 {
        assert(t.insert(0, x) =~= seq![x]);
    } else if x.id < t[0].id {
        assert(t.insert(0, x) =~= seq![x] + t);
    } else {
        let u = t.subrange(1, t.len() as int);
        lemma_insert_unit(u, x);
        let p = spec_first_above(u, x.id);
        assert(seq![t[0]] + u.insert(p, x) =~= t.insert(p + 1, x));
    }
}

/// `sorted` (by id) with `x` inserted after the units whose id is not
/// above its own.
fn insert_unit(sorted: &mut Vec<Unit>, x: Unit)
    ensures
        units_view(final(sorted)@) == spec_insert_unit(units_view(old(sorted)@), x@),
{
    let ghost t = units_view(sorted@);
    proof {
        lemma_insert_unit(t, x@);
        assert(t.subrange(0, t.len() as int) =~= t);
    }
    let mut p: usize = 0;
    while p < sorted.len() && !(x.id < sorted[p].id)
        invariant
            p <= sorted@.len(),
            t == units_view(sorted@),
            spec_first_above(t, x.id) == p + spec_first_above(
                t.subrange(p as int, t.len() as int),
                x.id,
            ),
        decreases sorted@.len() - p,
    {
        proof {
            let rest = t.subrange(p as int, t.len() as int);
            assert(rest.subrange(1, rest.len() as int) =~= t.subrange(p + 1, t.len() as int));
            assert(rest[0] == sorted@[p as int]@);
        }
        p = p + 1;
    }
    proof {
        let rest = t.subrange(p as int, t.len() as int);
        if p < sorted@.len() {
            assert(rest[0] == sorted@[p as int]@);
        }
    }
    let ghost before = sorted@;
    sorted.insert(p, x);
    proof {
        assert(units_view(sorted@) =~= t.insert(p as int, x@));
    }
}

/// The decimal renderings of `ids` joined by `, `, in brackets.
fn ids_debug(ids: &[u32]) -> (r: Vec<char>)
    ensures
        r@ == spec_ids_debug(ids@),
{
    let mut body: Vec<char> = Vec::new();
    let mut k: usize = 0;
    proof {
        assert(ids@.subrange(0, 0) =~= Seq::<u32>::empty());
    }
    while k < ids.len()
        invariant
            k <= ids@.len(),
            body@ == spec_join_ids(ids@.subrange(0, k as int)),
        decreases ids@.len() - k,
    {
        proof {
            assert(ids@.subrange(0, k + 1).subrange(0, k as int) =~= ids@.subrange(0, k as int));
        }
        if k > 0 {
            push_str(&mut body, ", ");
        }
        push_dec(&mut body, ids[k] as u128);
        proof {
            if k == 0 {
                assert(body@ =~= spec_join_ids(ids@.subrange(0, 1)));
            } else {
                assert(body@ =~= spec_join_ids(ids@.subrange(0, k + 1)));
            }
        }
        k = k + 1;
    }
    proof {
        assert(ids@.subrange(0, ids@.len() as int) =~= ids@);
    }
    let mut m = chars_of("[");
    push_chars(&mut m, body.as_slice());
    push_str(&mut m, "]");
    m
}

/// Whether some unit of `units` has id `id`.
fn has_unit(units: &Vec<Unit>, id: u32) -> (r: bool)
    ensures
        r == exists|k: int| 0 <= k < units@.len() && #[trigger] units_view(units@)[k].id == id,
{
    let mut k: usize = 0;
    while k < units.len()
        invariant
            k <= units@.len(),
            forall|j: int| 0 <= j < k ==> #[trigger] units_view(units@)[j].id != id,
        decreases units@.len() - k,
    {
        if units[k].id == id {
            proof {
                assert(units_view(units@)[k as int].id == id);
            }
            return true;
        }
        k = k + 1;
    }
    false
}

/// Region `i`, after the regions `prev`.
fn parse_region(r: &Value, i: usize, prev: &Vec<ExpectedRegion>) -> (res: Result<
    ExpectedRegion,
    Vec<char>,
>)
    ensures
        match spec_region(r@, i as nat, regions_view(prev@)) {
            Ok(m) => res matches Ok(x) && x@ == m,
            Err(e) => res matches Err(m) && m@ == e,
        },
{
    let mut at = chars_of("expected_region[");
    push_dec(&mut at, i as u128);
    push_str(&mut at, "]");
    let t = match r.as_table() {
        Some(t) => t,
        None => {
            return Err(at_msg(at.as_slice(), " must be a table"));
        },
    };
    let name = match get_str(t, "name") {
        Some(n) => n,
        None => {
            return Err(at_msg(at.as_slice(), ": missing string name"));
        },
    };
    let nc = chars_of(name.as_str());
    proof {
        assert(nc@.subrange(0, nc@.len() as int) =~= nc@);
    }
    if utf8_len(nc.as_slice(), nc.len()) > MAX_REGION_NAME as u128 {
        return Err(at_msg(at.as_slice(), ": name exceeds the 56-byte manifest cap"));
    }
    let mut k: usize = 0;
    while k < prev.len()
        invariant
            k <= prev@.len(),
            nc@ == name@,
            spec_utf8_len(name@) <= MAX_REGION_NAME,
            spec_str_of(spec_lookup(t@, "name"@)) == Some(name@),
            r@ == ValueModel::Table(t@),
            forall|j: int| 0 <= j < k ==> #[trigger] regions_view(prev@)[j].name != name@,
        decreases prev@.len() - k,
    {
        let pc = chars_of(prev[k].name.as_str());
        if chars_eq(pc.as_slice(), nc.as_slice()) {
            proof {
                assert(regions_view(prev@)[k as int].name == name@);
                assert(exists|j: int|
                    0 <= j < regions_view(prev@).len() && #[trigger] regions_view(prev@)[j].name
                        == name@);
            }
            let mut m = chars_of("duplicate expected_region name ");
            let d = crate::text::debug_chars(nc.as_slice());
            push_chars(&mut m, d.as_slice());
            return Err(m);
        }
        k = k + 1;
    }
    let layout_version = match get_u32(t, "layout_version") {
        Some(v) => v,
        None => {
            return Err(at_msg(at.as_slice(), ": missing u32 layout_version"));
        },
    };
    Ok(ExpectedRegion { name, layout_version })
}

/// Parse and validate boot.toml contents.
///
/// The document is parsed by the deterministic TOML-subset parser, then
/// checked against the manifest schema: `boot_toml_version` (major 1),
/// `[[unit]]` entries (ids dense from 0 and unique, absolute `exec`,
/// string `args`, `u32` `log_mask` defaulting to 0x1F, optional
/// `[unit.control]`), `[autostart]` naming an existing unit, and
/// `[[expected_region]]` entries with distinct names of at most 56 bytes.
/// The first violation, in that order, is the fault.
#[verifier::loop_isolation(false)]
pub fn parse(text: &str) -> (r: Result<BootManifest, BootFault>)
    ensures
        match spec_parse(text@) {
            Ok(m) => r matches Ok(b) && b@ == m,
            Err(e) => r matches Err(f) && f.0@ == e,
        },
{
    let doc = match parse_doc(text) {
        Ok(d) => d,
        Err(e) => {
            let mut m = chars_of("parse error: ");
            push_str(&mut m, e.as_str());
            return Err(fault(m.as_slice()));
        },
    };
    let table = match doc.as_table() {
        Some(t) => t,
        None => {
            let m = chars_of("top level must be a table");
            return Err(fault(m.as_slice()));
        },
    };
    let version = match table.get("boot_toml_version") {
        None => {
            let m = chars_of("missing required boot_toml_version");
            return Err(fault(m.as_slice()));
        },
        Some(v) => match v.as_integer() {
            Some(x) => x,
            None => {
                let m = chars_of("boot_toml_version must be an integer");
                return Err(fault(m.as_slice()));
            },
        },
    };
    if version != BOOT_TOML_MAJOR {
        let mut m = chars_of("unknown boot_toml_version major ");
        push_dec_signed(&mut m, version);
        push_str(&mut m, " (agent speaks 1)");
        return Err(fault(m.as_slice()));
    }
    // [[unit]], kept sorted by id as they are read.

    let mut sorted: Vec<Unit> = Vec::new();
    let ghost mut read: Seq<UnitModel> = Seq::empty();
    match table.get("unit") {
        None => {},
        Some(v) => {
            let arr = match v.as_array() {
                Some(a) => a,
                None => {
                    let m = chars_of("unit must be an array of tables");
                    return Err(fault(m.as_slice()));
                },
            };
            let ghost am = values_model(arr@);
            proof {
                lemma_values_model(arr@);
                assert(units_view(sorted@) =~= spec_sort_units(read));
                match spec_units_from(am, 0) {
                    Ok(all) => {
                        assert(read + all =~= all);
                    },
                    Err(_) => {},
                }
            }
            let mut i: usize = 0;
            while i < arr.len()
                invariant
                    i <= arr@.len(),
                    am == values_model(arr@),
                    am.len() == arr@.len(),
                    forall|j: int| 0 <= j < arr@.len() ==> #[trigger] am[j] == arr@[j]@,
                    units_view(sorted@) == spec_sort_units(read),
                    spec_units_from(am, 0) == match spec_units_from(am, i as nat) {
                        Ok(rest) => Ok(read + rest),
                        Err(e) => Err(e),
                    },
                decreases arr@.len() - i,
            {
                match parse_unit(&arr[i], i) {
                    Err(e) => {
                        return Err(fault(e.as_slice()));
                    },
                    Ok(u) => {
                        let ghost um = u@;
                        insert_unit(&mut sorted, u);
                        proof {
                            let r2 = read.push(um);
                            assert(r2.subrange(0, r2.len() - 1) =~= read);
                            match spec_units_from(am, i as nat + 1) {
                                Ok(rest) => {
                                    assert(read + (seq![um] + rest) =~= r2 + rest);
                                },
                                Err(_) => {},
                            }
                            read = r2;
                        }
                    },
                }
                i = i + 1;
            }
            proof {
                assert(read + Seq::<UnitModel>::empty() =~= read);
            }
        },
    }
    // ids dense from 0 and unique.

    let ghost sm = units_view(sorted@);
    let mut k: usize = 0;
    while k < sorted.len()
        invariant
            k <= sorted@.len(),
            sm == units_view(sorted@),
            forall|j: int| 0 <= j < k ==> #[trigger] sm[j].id == j,
        decreases sorted@.len() - k,
    {
        if sorted[k].id as usize != k {
            let mut ids: Vec<u32> = Vec::new();
            let mut j: usize = 0;
            while j < sorted.len()
                invariant
                    j <= sorted@.len(),
                    sm == units_view(sorted@),
                    ids@.len() == j,
                    forall|q: int| 0 <= q < j ==> #[trigger] ids@[q] == sm[q].id,
                decreases sorted@.len() - j,
            {
                ids.push(sorted[j].id);
                j = j + 1;
            }
            proof {
                assert(ids@ =~= sm.map_values(|u: UnitModel| u.id));
                assert(sm[k as int].id != k);
            }
            let mut m = chars_of("unit ids must be dense from 0 and unique (got ");
            let d = ids_debug(ids.as_slice());
            push_chars(&mut m, d.as_slice());
            push_str(&mut m, ")");
            return Err(fault(m.as_slice()));
        }
        k = k + 1;
    }
    // [autostart]

    let autostart_unit = match table.get("autostart") {
        None => None,
        Some(a) => {
            let t = match a.as_table() {
                Some(t) => t,
                None => {
                    let m = chars_of("autostart must be a table");
                    return Err(fault(m.as_slice()));
                },
            };
            let id = match get_u32(t, "unit") {
                Some(id) => id,
                None => {
                    let m = chars_of("autostart: missing u32 unit");
                    return Err(fault(m.as_slice()));
                },
            };
            if !has_unit(&sorted, id) {
                let mut m = chars_of("autostart references nonexistent unit id ");
                push_dec(&mut m, id as u128);
                return Err(fault(m.as_slice()));
            }
            Some(id)
        },
    };
    // [[expected_region]]

    let mut expected_regions: Vec<ExpectedRegion> = Vec::new();
    proof {
        assert(regions_view(expected_regions@) =~= Seq::<RegionModel>::empty());
    }
    match table.get("expected_region") {
        None => {},
        Some(v) => {
            let arr = match v.as_array() {
                Some(a) => a,
                None => {
                    let m = chars_of("expected_region must be an array of tables");
                    return Err(fault(m.as_slice()));
                },
            };
            let ghost am = values_model(arr@);
            proof {
                lemma_values_model(arr@);
            }
            let mut i: usize = 0;
            while i < arr.len()
                invariant
                    i <= arr@.len(),
                    am == values_model(arr@),
                    am.len() == arr@.len(),
                    forall|j: int| 0 <= j < arr@.len() ==> #[trigger] am[j] == arr@[j]@,
                    spec_regions_from(am, 0, Seq::empty()) == spec_regions_from(
                        am,
                        i as nat,
                        regions_view(expected_regions@),
                    ),
                decreases arr@.len() - i,
            {
                match parse_region(&arr[i], i, &expected_regions) {
                    Err(e) => {
                        return Err(fault(e.as_slice()));
                    },
                    Ok(reg) => {
                        let ghost before = regions_view(expected_regions@);
                        let ghost rm = reg@;
                        expected_regions.push(reg);
                        proof {
                            assert(regions_view(expected_regions@) =~= before.push(rm));
                        }
                    },
                }
                i = i + 1;
            }
        },
    }
    proof {
        let t = table@;
        let units_res: Result<Seq<UnitModel>, Seq<char>> = match spec_lookup(t, "unit"@) {
            None => Ok(Seq::empty()),
            Some(ValueModel::Array(arr)) => spec_units_from(arr, 0),
            Some(_) => Err("unit must be an array of tables"@),
        };
        assert(units_res == Ok::<Seq<UnitModel>, Seq<char>>(read));
        assert(sm == spec_sort_units(read));
        assert(spec_dense(sm));
        assert(spec_autostart(spec_lookup(t, "autostart"@), sm) == Ok::<Option<u32>, Seq<char>>(autostart_unit));
        let regions_res: Result<Seq<RegionModel>, Seq<char>> = match spec_lookup(
            t,
            "expected_region"@,
        ) {
            None => Ok(Seq::empty()),
            Some(ValueModel::Array(arr)) => spec_regions_from(arr, 0, Seq::empty()),
            Some(_) => Err("expected_region must be an array of tables"@),
        };
        assert(regions_res == Ok::<Seq<RegionModel>, Seq<char>>(regions_view(expected_regions@)));
    }
    Ok(BootManifest { autostart_unit, units: sorted, expected_regions })
}

impl BootManifest {
    /// Find a unit by id.
    pub fn unit(&self, id: u32) -> (r: Option<&Unit>)
        ensures
            match r {
                Some(u) => exists|k: int|
                    0 <= k < self.units@.len() && self.units@[k] == *u && u.id == id && forall|
                        j: int,
                    | 0 <= j < k ==> #[trigger] self.units@[j].id != id,
                None => forall|k: int| 0 <= k < self.units@.len() ==> #[trigger] self.units@[k].id != id,
            },
    {
        let mut k: usize = 0;
        while k < self.units.len()
            invariant
                k <= self.units@.len(),
                forall|j: int| 0 <= j < k ==> #[trigger] self.units@[j].id != id,
            decreases self.units@.len() - k,
        {
            if self.units[k].id == id {
                return Some(&self.units[k]);
            }
            k = k + 1;
        }
        None
    }
}

impl Default for BootManifest {
    fn default() -> (r: Self)
        ensures
            r@ == (ManifestModel {
                autostart_unit: None,
                units: Seq::empty(),
                expected_regions: Seq::empty(),
            }),
    {
        let r = BootManifest { autostart_unit: None, units: Vec::new(), expected_regions: Vec::new() };
        proof {
            assert(units_view(r.units@) =~= Seq::<UnitModel>::empty());
            assert(regions_view(r.expected_regions@) =~= Seq::<RegionModel>::empty());
        }
        r
    }
}

/// Region names that are distinct and within the manifest cap.
pub open spec fn spec_regions_ok(rs: Seq<RegionModel>) -> bool {
    &&& forall|i: int| 0 <= i < rs.len() ==> spec_utf8_len(#[trigger] rs[i].name) <= MAX_REGION_NAME
    &&& forall|i: int, j: int| 0 <= i < j < rs.len() ==> #[trigger] rs[i].name != #[trigger] rs[j].name
}

/// Reading regions keeps their names distinct and within the cap.
proof fn lemma_regions_from_ok(arr: Seq<ValueModel>, i: nat, acc: Seq<RegionModel>)
    requires
        spec_regions_ok(acc),
    ensures
        spec_regions_from(arr, i, acc) matches Ok(rs) ==> spec_regions_ok(rs),
    decreases arr.len() - i,
{
    if i < arr.len() {
        if let Ok(r) = spec_region(arr[i as int], i, acc) {
            let next = acc.push(r);
            assert forall|a: int, b: int| 0 <= a < b < next.len() implies #[trigger] next[a].name
                != #[trigger] next[b].name by {
                if b == acc.len() {
                    assert(acc[a].name != r.name);
                }
            }
            lemma_regions_from_ok(arr, i + 1, next);
        }
    }
}

/// A manifest that parses has its units in id order, dense from 0; its
/// autostart unit, if any, is one of them; and its expected regions
/// have distinct names of at most 56 bytes.
pub proof fn lemma_parsed_manifest_valid(s: Seq<char>)
    requires
        spec_parse(s) is Ok,
    ensures
        forall|k: int|
            0 <= k < spec_parse(s)->Ok_0.units.len() ==> #[trigger] spec_parse(
                s,
            )->Ok_0.units[k].id == k,
        spec_parse(s)->Ok_0.autostart_unit matches Some(id) ==> id < spec_parse(
            s,
        )->Ok_0.units.len(),
        spec_regions_ok(spec_parse(s)->Ok_0.expected_regions),
{
    let t = spec_parse_doc(s)->Ok_0;
    let m = spec_parse(s)->Ok_0;
    assert(spec_dense(m.units));
    if let Some(id) = m.autostart_unit {
        let k = choose|k: int| 0 <= k < m.units.len() && #[trigger] m.units[k].id == id;
        assert(m.units[k].id == k);
    }
    if let Some(ValueModel::Array(arr)) = spec_lookup(t, "expected_region"@) {
        lemma_regions_from_ok(arr, 0, Seq::empty());
    }
}

} // verus!
