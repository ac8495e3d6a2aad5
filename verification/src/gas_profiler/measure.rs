//! Execution profiling: real resource usage of an invocation (from a
//! `simulateTransaction` response or a hand-written usage document), priced
//! per resource and checked against the per-transaction limits.

use vstd::prelude::*;
use crate::gas_profiler::fees::{
    compute_resource_fee, resource_fee_spec, sat_add, sat_add_spec, sat_mul, sat_mul_spec,
    FeeBreakdown, NetworkFeeConfig, ResourceUsage, TxLimits,
};
use crate::simulation_resources::{
    failure_of, failure_text, get_member, json_document, json_of, lemma_failure_text,
    lemma_parse_failure_known, member, parse_simulation_resources, resources_spec, resources_view,
    JsonNumber, JsonValue, ResourcesView, SimulationFootprint, SimulationResources,
};
use crate::sep10::{base64_standard_decode, base64_standard_decoding};
use stellar_xdr::{ContractEventType, DiagnosticEvent, Limits, ReadXdr, WriteXdr};
use crate::text::{
    chars_of, lemma_string_views_push, push_str, split_once, split_once_spec, string_of,
    string_views, to_owned_string, trim, trim_chars,
};

verus! {

/// Rough size of a Soroban invoke transaction envelope without its
/// `transactionData`; used when the real size is not known.
pub const ESTIMATED_INVOKE_ENVELOPE_BYTES: u64 = 300;

/// Warning: the simulation gave no footprint.
pub const WARN_NO_FOOTPRINT: &'static str = "simulation carried no transactionData; ledger footprint is unknown (counted as 0)";

/// Warning: the transaction size is an estimate.
pub const WARN_SIZE_ESTIMATED: &'static str = "transaction size is estimated; bandwidth/history attribution is approximate";

/// How much of a per-transaction limit a resource uses: `used` out of
/// `limit` (a limit of 0 counts as no use).
#[derive(Debug, Clone, Copy, PartialEq, Eq)]
pub struct Utilization {
    pub used: u64,
    pub limit: u64,
}

/// Use of each per-transaction limit.
#[derive(Debug, Clone, Copy, PartialEq, Eq)]
pub struct LimitUtilization {
    pub instructions: Utilization,
    pub memory: Option<Utilization>,
    /// Write entries are part of the read footprint too.
    pub read_entries: Utilization,
    pub write_entries: Utilization,
    pub read_bytes: Utilization,
    pub write_bytes: Utilization,
    pub events: Utilization,
}

/// The use of the limits by `u`; the read entries count the written ones too
/// (saturating at `u64::MAX`).
pub open spec fn limit_use_spec(u: ResourceUsage, l: TxLimits) -> LimitUtilization {
    LimitUtilization {
        instructions: Utilization { used: u.instructions, limit: l.max_instructions },
        memory: match u.memory_bytes {
            Some(m) => Some(Utilization { used: m, limit: l.max_memory_bytes }),
            None => None,
        },
        read_entries: Utilization {
            used: sat_add_spec(u.read_entries, u.write_entries),
            limit: l.max_read_entries,
        },
        write_entries: Utilization { used: u.write_entries, limit: l.max_write_entries },
        read_bytes: Utilization { used: u.read_bytes, limit: l.max_read_bytes },
        write_bytes: Utilization { used: u.write_bytes, limit: l.max_write_bytes },
        events: Utilization { used: u.contract_events_bytes, limit: l.max_contract_events_bytes },
    }
}

impl LimitUtilization {
    /// The use of the limits in `limits` by `usage`.
    pub fn compute(usage: &ResourceUsage, limits: &TxLimits) -> (r: LimitUtilization)
        ensures
            r == limit_use_spec(*usage, *limits),
    {
        LimitUtilization {
            instructions: Utilization { used: usage.instructions, limit: limits.max_instructions },
            memory: match usage.memory_bytes {
                Some(m) => Some(Utilization { used: m, limit: limits.max_memory_bytes }),
                None => None,
            },
            read_entries: Utilization {
                used: sat_add(usage.read_entries, usage.write_entries),
                limit: limits.max_read_entries,
            },
            write_entries: Utilization { used: usage.write_entries, limit: limits.max_write_entries },
            read_bytes: Utilization { used: usage.read_bytes, limit: limits.max_read_bytes },
            write_bytes: Utilization { used: usage.write_bytes, limit: limits.max_write_bytes },
            events: Utilization {
                used: usage.contract_events_bytes,
                limit: limits.max_contract_events_bytes,
            },
        }
    }
}

/// One profiled contract invocation.
#[derive(Debug, Clone, PartialEq, Eq)]
pub struct MeasuredInvocation {
    /// Contract function the measurement belongs to.
    pub function: String,
    /// Where the numbers came from (file path or `rpc:<contract>`).
    pub source: String,
    pub usage: ResourceUsage,
    /// `minResourceFee` reported by simulation: the authoritative total.
    pub reported_min_resource_fee: Option<u64>,
    /// Per-resource attribution computed with the fee schedule.
    pub model_fee: FeeBreakdown,
    pub utilization: LimitUtilization,
    pub requires_restore: bool,
    pub restore_fee_stroops: Option<u64>,
    pub warnings: Vec<String>,
}

/// A measurement as plain values.
pub struct MeasurementView {
    pub function: Seq<char>,
    pub source: Seq<char>,
    pub usage: ResourceUsage,
    pub reported_min_resource_fee: Option<u64>,
    pub model_fee: FeeBreakdown,
    pub utilization: LimitUtilization,
    pub requires_restore: bool,
    pub restore_fee_stroops: Option<u64>,
    pub warnings: Seq<Seq<char>>,
}

/// The plain values of a measurement.
pub open spec fn measurement_view(m: MeasuredInvocation) -> MeasurementView {
    MeasurementView {
        function: m.function@,
        source: m.source@,
        usage: m.usage,
        reported_min_resource_fee: m.reported_min_resource_fee,
        model_fee: m.model_fee,
        utilization: m.utilization,
        requires_restore: m.requires_restore,
        restore_fee_stroops: m.restore_fee_stroops,
        warnings: string_views(m.warnings@),
    }
}

/// The measurement of `usage`: priced with `cfg.fees`, checked against
/// `cfg.limits`; a restore fee means a restore is required.
pub open spec fn measured_of(
    function: Seq<char>,
    source: Seq<char>,
    usage: ResourceUsage,
    reported: Option<u64>,
    restore: Option<u64>,
    warnings: Seq<Seq<char>>,
    cfg: NetworkFeeConfig,
) -> MeasurementView {
    MeasurementView {
        function,
        source,
        usage,
        reported_min_resource_fee: reported,
        model_fee: resource_fee_spec(usage, cfg.fees),
        utilization: limit_use_spec(usage, cfg.limits),
        requires_restore: restore is Some,
        restore_fee_stroops: restore,
        warnings,
    }
}

impl MeasuredInvocation {
    /// The fee to report: the simulated minimum when available, otherwise
    /// the model total.
    pub fn effective_fee(&self) -> (r: u64)
        ensures
            r == match self.reported_min_resource_fee {
                Some(f) => f,
                None => self.model_fee.total,
            },
    {
        match self.reported_min_resource_fee {
            Some(f) => f,
            None => self.model_fee.total,
        }
    }
}

fn copy_strings(v: &Vec<String>) -> (r: Vec<String>)
    ensures
        string_views(r@) == string_views(v@),
{
    let mut r: Vec<String> = Vec::new();
    let mut i: usize = 0;
    while i < v.len()
        invariant
            i <= v@.len(),
            string_views(r@) == string_views(v@).take(i as int),
        decreases v@.len() - i,
    {
        let s = to_owned_string(v[i].as_str());
        proof {
            lemma_string_views_push(r@, s);
            assert(string_views(v@).take(i + 1) =~= string_views(v@).take(i as int).push(v@[i as int]@));
        }
        r.push(s);
        i += 1;
    }
    assert(string_views(v@).take(i as int) =~= string_views(v@));
    r
}

fn build(
    function: &str,
    source: &str,
    usage: ResourceUsage,
    reported: Option<u64>,
    restore: Option<u64>,
    warnings: Vec<String>,
    cfg: &NetworkFeeConfig,
) -> (r: MeasuredInvocation)
    ensures
        measurement_view(r) == measured_of(
            function@,
            source@,
            usage,
            reported,
            restore,
            string_views(warnings@),
            *cfg,
        ),
{
    let model_fee = compute_resource_fee(&usage, &cfg.fees);
    let utilization = LimitUtilization::compute(&usage, &cfg.limits);
    MeasuredInvocation {
        function: to_owned_string(function),
        source: to_owned_string(source),
        usage,
        reported_min_resource_fee: reported,
        model_fee,
        utilization,
        requires_restore: restore.is_some(),
        restore_fee_stroops: restore,
        warnings,
    }
}

/// A measurement from a hand-written usage document: no reported fee, no
/// restore, no warnings.
pub fn from_usage(function: &str, source: &str, usage: ResourceUsage, cfg: &NetworkFeeConfig) -> (r:
    MeasuredInvocation)
    ensures
        measurement_view(r) == measured_of(
            function@,
            source@,
            usage,
            None,
            None,
            Seq::empty(),
            *cfg,
        ),
{
    let w: Vec<String> = Vec::new();
    assert(string_views(w@) =~= Seq::<Seq<char>>::empty());
    build(function, source, usage, None, None, w, cfg)
}

/// The usage that parsed simulation resources describe: the footprint's
/// entries and bytes (zero without a footprint), the measured CPU (else the
/// declared one), the given event bytes, and a transaction size estimated
/// as the envelope plus 40 bytes and 80 per footprint entry (saturating).
pub open spec fn sim_usage(rv: ResourcesView, events_bytes: u64) -> ResourceUsage {
    let fp = match rv.footprint {
        Some(f) => f,
        None => SimulationFootprint {
            read_only_entries: 0,
            read_write_entries: 0,
            read_bytes: 0,
            write_bytes: 0,
            instructions: 0,
            resource_fee_stroops: 0,
        },
    };
    let entries = sat_add_spec(fp.read_only_entries as u64, fp.read_write_entries as u64);
    ResourceUsage {
        instructions: match rv.cpu_instructions {
            Some(c) => c,
            None => fp.instructions as u64,
        },
        memory_bytes: rv.memory_bytes,
        read_entries: fp.read_only_entries as u64,
        write_entries: fp.read_write_entries as u64,
        read_bytes: fp.read_bytes as u64,
        write_bytes: fp.write_bytes as u64,
        contract_events_bytes: events_bytes,
        transaction_size_bytes: sat_add_spec(
            ESTIMATED_INVOKE_ENVELOPE_BYTES,
            if rv.footprint is Some {
                sat_add_spec(40, sat_mul_spec(entries, 80))
            } else {
                0
            },
        ),
    }
}

/// The warnings of a measurement from simulation: the parser's, then the
/// missing footprint, then the size estimate.
pub open spec fn sim_warnings(rv: ResourcesView) -> Seq<Seq<char>> {
    (if rv.footprint is Some {
        rv.warnings
    } else {
        rv.warnings.push(WARN_NO_FOOTPRINT@)
    }).push(WARN_SIZE_ESTIMATED@)
}

/// A measurement from parsed simulation resources and the byte size of its
/// charged events.
pub fn from_simulation_resources(
    function: &str,
    source: &str,
    res: &SimulationResources,
    events_bytes: u64,
    cfg: &NetworkFeeConfig,
) -> (r: MeasuredInvocation)
    ensures
        measurement_view(r) == measured_of(
            function@,
            source@,
            sim_usage(resources_view(*res), events_bytes),
            Some(res.min_resource_fee_stroops),
            res.restore_fee_stroops,
            sim_warnings(resources_view(*res)),
            *cfg,
        ),
{
    let mut warnings = copy_strings(&res.warnings);
    let fp = match &res.footprint {
        Some(f) => SimulationFootprint {
            read_only_entries: f.read_only_entries,
            read_write_entries: f.read_write_entries,
            read_bytes: f.read_bytes,
            write_bytes: f.write_bytes,
            instructions: f.instructions,
            resource_fee_stroops: f.resource_fee_stroops,
        },
        None => SimulationFootprint {
            read_only_entries: 0,
            read_write_entries: 0,
            read_bytes: 0,
            write_bytes: 0,
            instructions: 0,
            resource_fee_stroops: 0,
        },
    };
    if res.footprint.is_none() {
        let w = to_owned_string(WARN_NO_FOOTPRINT);
        proof {
            lemma_string_views_push(warnings@, w);
        }
        warnings.push(w);
    }
    let instructions = match res.cpu_instructions {
        Some(c) => c,
        None => fp.instructions as u64,
    };
    let tx_data_bytes: u64 = if res.footprint.is_some() {
        let entries = sat_add(fp.read_only_entries as u64, fp.read_write_entries as u64);
        sat_add(40, sat_mul(entries, 80))
    } else {
        0
    };
    let usage = ResourceUsage {
        instructions,
        memory_bytes: res.memory_bytes,
        read_entries: fp.read_only_entries as u64,
        write_entries: fp.read_write_entries as u64,
        read_bytes: fp.read_bytes as u64,
        write_bytes: fp.write_bytes as u64,
        contract_events_bytes: events_bytes,
        transaction_size_bytes: sat_add(ESTIMATED_INVOKE_ENVELOPE_BYTES, tx_data_bytes),
    };
    let w = to_owned_string(WARN_SIZE_ESTIMATED);
    proof {
        lemma_string_views_push(warnings@, w);
    }
    warnings.push(w);
    let r = build(function, source, usage, Some(res.min_resource_fee_stroops), res.restore_fee_stroops, warnings, cfg);
    assert(usage == sim_usage(resources_view(*res), events_bytes));
    r
}

/// The file stem of a path as `std::path::Path::file_stem` finds it (the
/// file name without its last extension).
pub uninterp spec fn path_file_stem_of(path: Seq<char>) -> Option<Seq<char>>;

/// `Path::new(path).file_stem()`, as text.
#[verifier::external_body]
fn path_file_stem(path: &str) -> (r: Option<String>)
    ensures
        match r {
            Some(s) => path_file_stem_of(path@) == Some(s@),
            None => path_file_stem_of(path@) is None,
        },
{
    std::path::Path::new(path).file_stem().and_then(|s| s.to_str()).map(|s| s.to_string())
}

/// The error for a malformed `--sim` value.
pub open spec fn sim_spec_error(spec: Seq<char>) -> Seq<char> {
    "invalid --sim '"@ + spec + "': expected FUNCTION=PATH"@
}

/// What a `--sim` value means: `FUNCTION=PATH` (both trimmed and
/// non-empty), or a bare path whose file stem names the function.
pub open spec fn sim_spec_meaning(spec: Seq<char>) -> Result<(Seq<char>, Seq<char>), Seq<char>> {
    match split_once_spec(spec, '=') {
        Some((name, path)) => if trim(name).len() == 0 || trim(path).len() == 0 {
            Err(sim_spec_error(spec))
        } else {
            Ok((trim(name), trim(path)))
        },
        None => match path_file_stem_of(spec) {
            Some(stem) => Ok((stem, spec)),
            None => Err(sim_spec_error(spec)),
        },
    }
}

fn sim_error(spec: &str) -> (r: String)
    ensures
        r@ == sim_spec_error(spec@),
{
    let mut m = to_owned_string("invalid --sim '");
    push_str(&mut m, spec);
    push_str(&mut m, "': expected FUNCTION=PATH");
    m
}

/// Parses a `NAME=PATH` measurement spec into the function name and the
/// path; without `=`, the path's file stem names the function.
pub fn parse_sim_spec(spec: &str) -> (r: Result<(String, String), String>)
    ensures
        match sim_spec_meaning(spec@) {
            Ok((name, path)) => r matches Ok((n, p)) && n@ == name && p@ == path,
            Err(m) => r matches Err(e) && e@ == m,
        },
{
    let c = chars_of(spec);
    match split_once(&c, '=') {
        Some((name, path)) => {
            let n = trim_chars(&name);
            let p = trim_chars(&path);
            if n.len() == 0 || p.len() == 0 {
                return Err(sim_error(spec));
            }
            Ok((string_of(&n), string_of(&p)))
        },
        None => match path_file_stem(spec) {
            Some(stem) => Ok((stem, to_owned_string(spec))),
            None => Err(sim_error(spec)),
        },
    }
}


// ── Event bytes ──────────────────────────────────────────────────────────────

/// A `DiagnosticEvent` XDR as the plain values the fee needs: whether it was
/// emitted in a successful contract call, its event type (0 system, 1
/// contract, 2 diagnostic), and the XDR length of its `ContractEvent` when
/// that encodes. `None` when the bytes do not read as an event.
pub uninterp spec fn xdr_diagnostic_event(bytes: Seq<u8>) -> Option<(bool, u8, Option<u64>)>;

/// `DiagnosticEvent::from_xdr` (nesting depth limited to 500, length to the
/// input), then `ContractEvent::to_xdr` for its length.
#[verifier::external_body]
fn read_diagnostic_event(bytes: &[u8]) -> (r: Option<(bool, u8, Option<u64>)>)
    ensures
        r == xdr_diagnostic_event(bytes@),
{
    let d = DiagnosticEvent::from_xdr(bytes, Limits { depth: 500, len: bytes.len() }).ok()?;
    let kind: u8 = match d.event.type_ {
        ContractEventType::System => 0,
        ContractEventType::Contract => 1,
        ContractEventType::Diagnostic => 2,
    };
    let len = d.event.to_xdr(Limits::none()).ok().map(|b| b.len() as u64);
    Some((d.in_successful_contract_call, kind, len))
}

/// The charged bytes of one `events` entry: the XDR size of a contract or
/// system event emitted in a successful call, given as a base64 string;
/// anything else (diagnostic-only, failed call, undecodable) is 0.
pub open spec fn event_charge(v: JsonValue) -> u64 {
    match v {
        JsonValue::String(s) => match base64_standard_decoding(s@) {
            Ok(b) => match xdr_diagnostic_event(b) {
                Some((ok, kind, Some(n))) => if ok && (kind == 0 || kind == 1) {
                    n
                } else {
                    0
                },
                _ => 0,
            },
            Err(_) => 0,
        },
        _ => 0,
    }
}

/// The charged event bytes of `events`, summed (saturating).
pub open spec fn events_bytes_spec(events: Seq<JsonValue>) -> u64
    decreases events.len(),
{
    if events.len() == 0 {
        0
    } else {
        sat_add_spec(events_bytes_spec(events.drop_last()), event_charge(events.last()))
    }
}

fn event_bytes(v: &JsonValue) -> (r: u64)
    ensures
        r == event_charge(*v),
{
    match v {
        JsonValue::String(s) => match base64_standard_decode(s.as_str()) {
            Ok(b) => match read_diagnostic_event(b.as_slice()) {
                Some((ok, kind, Some(n))) => if ok && (kind == 0 || kind == 1) {
                    n
                } else {
                    0
                },
                _ => 0,
            },
            Err(_) => 0,
        },
        _ => 0,
    }
}

/// Sums the XDR size of the contract and system events in a simulation's
/// `events` array (base64 `DiagnosticEvent`s). Diagnostic-only events and
/// events of failed calls are not charged; undecodable entries are ignored.
pub fn contract_events_bytes(events: &[JsonValue]) -> (r: u64)
    ensures
        r == events_bytes_spec(events@),
{
    let mut total: u64 = 0;
    let mut i: usize = 0;
    while i < events.len()
        invariant
            i <= events@.len(),
            total == events_bytes_spec(events@.take(i as int)),
        decreases events@.len() - i,
    {
        proof {
            assert(events@.take(i + 1).drop_last() =~= events@.take(i as int));
        }
        total = sat_add(total, event_bytes(&events[i]));
        i += 1;
    }
    assert(events@.take(i as int) =~= events@);
    total
}

/// The `events` array of a response: under `result` when there is one,
/// else at the top; empty when absent or not an array.
pub open spec fn events_of(v: JsonValue) -> Seq<JsonValue> {
    let res = match member(v, "result"@) {
        Some(x) => x,
        None => v,
    };
    match member(res, "events"@) {
        Some(JsonValue::Array(a)) => a@,
        _ => Seq::empty(),
    }
}

fn response_events_bytes(v: &JsonValue) -> (r: u64)
    ensures
        r == events_bytes_spec(events_of(*v)),
{
    let res = match get_member(v, "result") {
        Some(x) => x,
        None => v,
    };
    match get_member(res, "events") {
        Some(JsonValue::Array(a)) => contract_events_bytes(a.as_slice()),
        _ => 0,
    }
}

// ── Measurement documents ────────────────────────────────────────────────────

/// A `u64` field of a usage document: absent is 0, a non-negative integer is
/// itself; anything else makes the document invalid (`None`).
pub open spec fn usage_u64(v: Option<JsonValue>) -> Option<u64> {
    match v {
        None => Some(0),
        Some(JsonValue::Number(JsonNumber::Unsigned(n))) => Some(n),
        _ => None,
    }
}

/// The optional memory field: absent or null is none, a non-negative
/// integer is itself; anything else makes the document invalid.
pub open spec fn usage_opt_u64(v: Option<JsonValue>) -> Option<Option<u64>> {
    match v {
        None => Some(None),
        Some(JsonValue::Null) => Some(None),
        Some(JsonValue::Number(JsonNumber::Unsigned(n))) => Some(Some(n)),
        _ => None,
    }
}

/// The usage a resource usage document (a JSON object, fields defaulting
/// to zero) states, or `None` when a field has the wrong type.
pub open spec fn usage_doc(v: JsonValue) -> Option<ResourceUsage> {
    match (
        usage_u64(member(v, "instructions"@)),
        usage_opt_u64(member(v, "memory_bytes"@)),
        usage_u64(member(v, "read_entries"@)),
        usage_u64(member(v, "write_entries"@)),
        usage_u64(member(v, "read_bytes"@)),
        usage_u64(member(v, "write_bytes"@)),
        usage_u64(member(v, "contract_events_bytes"@)),
        usage_u64(member(v, "transaction_size_bytes"@)),
    ) {
        (Some(a), Some(b), Some(c), Some(d), Some(e), Some(f), Some(g), Some(h)) => Some(
            ResourceUsage {
                instructions: a,
                memory_bytes: b,
                read_entries: c,
                write_entries: d,
                read_bytes: e,
                write_bytes: f,
                contract_events_bytes: g,
                transaction_size_bytes: h,
            },
        ),
        _ => None,
    }
}

fn usage_field(v: &JsonValue, key: &str) -> (r: Option<u64>)
    ensures
        r == usage_u64(member(*v, key@)),
{
    match get_member(v, key) {
        None => Some(0),
        Some(JsonValue::Number(JsonNumber::Unsigned(n))) => Some(*n),
        Some(_) => None,
    }
}

fn usage_opt_field(v: &JsonValue, key: &str) -> (r: Option<Option<u64>>)
    ensures
        r == usage_opt_u64(member(*v, key@)),
{
    match get_member(v, key) {
        None => Some(None),
        Some(JsonValue::Null) => Some(None),
        Some(JsonValue::Number(JsonNumber::Unsigned(n))) => Some(Some(*n)),
        Some(_) => None,
    }
}

/// Reads a resource usage document.
pub fn parse_usage_document(v: &JsonValue) -> (r: Option<ResourceUsage>)
    ensures
        r == usage_doc(*v),
{
    let a = usage_field(v, "instructions");
    let b = usage_opt_field(v, "memory_bytes");
    let c = usage_field(v, "read_entries");
    let d = usage_field(v, "write_entries");
    let e = usage_field(v, "read_bytes");
    let f = usage_field(v, "write_bytes");
    let g = usage_field(v, "contract_events_bytes");
    let h = usage_field(v, "transaction_size_bytes");
    match (a, b, c, d, e, f, g, h) {
        (Some(a), Some(b), Some(c), Some(d), Some(e), Some(f), Some(g), Some(h)) => Some(
            ResourceUsage {
                instructions: a,
                memory_bytes: b,
                read_entries: c,
                write_entries: d,
                read_bytes: e,
                write_bytes: f,
                contract_events_bytes: g,
                transaction_size_bytes: h,
            },
        ),
        _ => None,
    }
}

/// What a measurement document (named `source`) gives for `function`: a
/// usage document (an object with `instructions`) priced as it stands, or
/// a `simulateTransaction` response with its resources, charged event bytes,
/// reported fee, restore fee and warnings; else the error text.
pub open spec fn measurement_spec(
    function: Seq<char>,
    source: Seq<char>,
    raw: Seq<char>,
    cfg: NetworkFeeConfig,
) -> Result<MeasurementView, Seq<char>> {
    match json_of(raw) {
        Err(_) => Err(source + " is not valid JSON"@),
        Ok(v) => if member(v, "instructions"@) is Some {
            match usage_doc(v) {
                Some(u) => Ok(measured_of(function, source, u, None, None, Seq::empty(), cfg)),
                None => Err(source + " is not a valid resource usage document"@),
            }
        } else {
            match resources_spec(v) {
                Err(e) => Err(source + ": "@ + failure_text(e)),
                Ok(rv) => Ok(
                    measured_of(
                        function,
                        source,
                        sim_usage(rv, events_bytes_spec(events_of(v))),
                        Some(rv.min_resource_fee_stroops),
                        rv.restore_fee_stroops,
                        sim_warnings(rv),
                        cfg,
                    ),
                ),
            }
        },
    }
}

fn error_with(source: &str, tail: &str) -> (r: String)
    ensures
        r@ == source@ + tail@,
{
    let mut m = to_owned_string(source);
    push_str(&mut m, tail);
    m
}

/// Parses a measurement document: a `simulateTransaction` response or a
/// resource usage JSON object (told apart by a top-level `instructions`).
pub fn parse_measurement(function: &str, source: &str, raw: &str, cfg: &NetworkFeeConfig) -> (r: Result<
    MeasuredInvocation,
    String,
>)
    ensures
        match measurement_spec(function@, source@, raw@, *cfg) {
            Ok(mv) => r matches Ok(m) && measurement_view(m) == mv,
            Err(e) => r matches Err(m) && m@ == e,
        },
{
    let value = match json_document(raw) {
        Ok(v) => v,
        Err(_) => {
            return Err(error_with(source, " is not valid JSON"));
        },
    };
    if get_member(&value, "instructions").is_some() {
        return match parse_usage_document(&value) {
            Some(u) => Ok(from_usage(function, source, u, cfg)),
            None => Err(error_with(source, " is not a valid resource usage document")),
        };
    }
    match parse_simulation_resources(&value) {
        Err(e) => {
            proof {
                lemma_parse_failure_known(value);
                lemma_failure_text(e);
            }
            let mut m = error_with(source, ": ");
            push_str(&mut m, e.message().as_str());
            Err(m)
        },
        Ok(res) => {
            let events = response_events_bytes(&value);
            Ok(from_simulation_resources(function, source, &res, events, cfg))
        },
    }
}

} // verus!
