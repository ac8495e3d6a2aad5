//! Soroban simulation resource accounting and transaction fee planning:
//! the resources a `simulateTransaction` call reported, the fee to submit
//! with, and the ceilings of the built-in simulation profiles.

use vstd::prelude::*;
use crate::text::{
    all_digits, ascii_lower_seq, ascii_lowercase, chars_eq, chars_of, contains_seq, decimal, decimal_string,
    digits_value, is_digit, join, join_spec, lemma_string_views_push, parse_unsigned, push_str,
    str_eq, string_of, string_views, to_owned_string, trim, trim_str,
};
use crate::sep10::{base64_standard_decode, base64_standard_decoding};
use stellar_xdr::{Limits, ReadXdr, SorobanTransactionData};
use serde_json::Value;

verus! {

/// Default safety margin applied on top of the simulated minimum resource
/// fee (the margin the Stellar CLI uses).
pub const DEFAULT_FEE_MARGIN_PERCENT: u32 = 20;

/// Upper bound accepted for a margin; anything higher is almost certainly a
/// typo (stroops passed instead of a percentage).
pub const MAX_FEE_MARGIN_PERCENT: u32 = 1_000;

/// Default per-operation inclusion fee in stroops (the network base fee).
pub const DEFAULT_INCLUSION_FEE_STROOPS: u64 = 100;

/// Largest simulation response accepted, in bytes (8 MiB).
pub const MAX_RESPONSE_BYTES: usize = 8_388_608;

/// A specific resource ceiling breach found when evaluating a profile.
#[derive(Debug, Clone, PartialEq, Eq)]
pub struct ProfileViolation {
    pub metric: String,
    pub actual: u64,
    pub ceiling: u64,
    pub message: String,
}

/// Everything that can go wrong while turning a simulation response into a
/// resource plan.
#[derive(Debug, Clone, PartialEq, Eq)]
pub enum SimulationResourceError {
    /// The payload was not a JSON object.
    NotAnObject,
    /// The JSON-RPC envelope carried an `error` member.
    RpcError(String),
    /// The simulation itself failed on the host.
    SimulationFailed(String),
    /// A field was present but not usable.
    InvalidField { field: String, reason: String },
    /// A field required for fee planning was absent.
    MissingField(String),
    /// The response lacks the resource accounting this command needs.
    UnsupportedResponse(String),
    /// The requested margin is outside the accepted range.
    InvalidMargin(u32),
    /// Fee arithmetic overflowed `u64`.
    FeeOverflow,
    /// Input exceeded [`MAX_RESPONSE_BYTES`].
    ResponseTooLarge { bytes: usize, limit: usize },
    /// An unknown simulation profile name was requested.
    UnknownProfile { name: String, available: Vec<String> },
    /// Simulation exceeded the resource ceilings of the active profile.
    ProfileCeilingExceeded { profile: String, violations: Vec<ProfileViolation> },
}

/// The messages of a list of violations.
pub open spec fn violation_messages(v: Seq<ProfileViolation>) -> Seq<Seq<char>> {
    v.map_values(|x: ProfileViolation| x.message@)
}

/// The text of each error.
pub open spec fn error_text(e: SimulationResourceError) -> Seq<char> {
    match e {
        SimulationResourceError::NotAnObject => "simulation response is not a JSON object; expected the result of a `simulateTransaction` call"@,
        SimulationResourceError::RpcError(m) => "Soroban RPC returned an error: "@ + m@,
        SimulationResourceError::SimulationFailed(m) => "simulation failed on the host: "@ + m@,
        SimulationResourceError::InvalidField { field, reason } => "invalid `"@ + field@
            + "` in simulation response: "@ + reason@,
        SimulationResourceError::MissingField(f) => "simulation response is missing `"@ + f@
            + "`; cannot plan transaction resources"@,
        SimulationResourceError::UnsupportedResponse(m) => "unsupported simulation response: "@ + m@,
        SimulationResourceError::InvalidMargin(p) => "fee margin "@ + decimal(p as nat)
            + "% is out of range (expected 0..="@ + decimal(MAX_FEE_MARGIN_PERCENT as nat) + ")"@,
        SimulationResourceError::FeeOverflow => "resource fee calculation overflowed u64 stroops"@,
        SimulationResourceError::ResponseTooLarge { bytes, limit } => "simulation response is "@
            + decimal(bytes as nat) + " bytes, above the "@ + decimal(limit as nat) + " byte limit"@,
        SimulationResourceError::UnknownProfile { name, available } => "unknown simulation profile '"@
            + name@ + "'; available profiles: "@ + join_spec(string_views(available@), ", "@),
        SimulationResourceError::ProfileCeilingExceeded { profile, violations } =>
            "simulation exceeded profile '"@ + profile@ + "' ceilings ("@ + decimal(
            violations@.len(),
        ) + " violation(s)): "@ + join_spec(violation_messages(violations@), "; "@),
    }
}

impl SimulationResourceError {
    /// Human-readable description.
    pub fn message(&self) -> (r: String)
        ensures
            r@ == error_text(*self),
    {
        match self {
            SimulationResourceError::NotAnObject => to_owned_string(
                "simulation response is not a JSON object; expected the result of a `simulateTransaction` call",
            ),
            SimulationResourceError::RpcError(m) => {
                let mut s = to_owned_string("Soroban RPC returned an error: ");
                push_str(&mut s, m.as_str());
                s
            },
            SimulationResourceError::SimulationFailed(m) => {
                let mut s = to_owned_string("simulation failed on the host: ");
                push_str(&mut s, m.as_str());
                s
            },
            SimulationResourceError::InvalidField { field, reason } => {
                let mut s = to_owned_string("invalid `");
                push_str(&mut s, field.as_str());
                push_str(&mut s, "` in simulation response: ");
                push_str(&mut s, reason.as_str());
                s
            },
            SimulationResourceError::MissingField(f) => {
                let mut s = to_owned_string("simulation response is missing `");
                push_str(&mut s, f.as_str());
                push_str(&mut s, "`; cannot plan transaction resources");
                s
            },
            SimulationResourceError::UnsupportedResponse(m) => {
                let mut s = to_owned_string("unsupported simulation response: ");
                push_str(&mut s, m.as_str());
                s
            },
            SimulationResourceError::InvalidMargin(p) => {
                let mut s = to_owned_string("fee margin ");
                push_str(&mut s, decimal_string(*p as u64).as_str());
                push_str(&mut s, "% is out of range (expected 0..=");
                push_str(&mut s, decimal_string(MAX_FEE_MARGIN_PERCENT as u64).as_str());
                push_str(&mut s, ")");
                s
            },
            SimulationResourceError::FeeOverflow => to_owned_string(
                "resource fee calculation overflowed u64 stroops",
            ),
            SimulationResourceError::ResponseTooLarge { bytes, limit } => {
                let mut s = to_owned_string("simulation response is ");
                push_str(&mut s, decimal_string(*bytes as u64).as_str());
                push_str(&mut s, " bytes, above the ");
                push_str(&mut s, decimal_string(*limit as u64).as_str());
                push_str(&mut s, " byte limit");
                s
            },
            SimulationResourceError::UnknownProfile { name, available } => {
                let mut s = to_owned_string("unknown simulation profile '");
                push_str(&mut s, name.as_str());
                push_str(&mut s, "'; available profiles: ");
                push_str(&mut s, join(available, ", ").as_str());
                s
            },
            SimulationResourceError::ProfileCeilingExceeded { profile, violations } => {
                let mut msgs: Vec<String> = Vec::new();
                let mut i: usize = 0;
                while i < violations.len()
                    invariant
                        i <= violations@.len(),
                        string_views(msgs@) == violation_messages(violations@).take(i as int),
                    decreases violations@.len() - i,
                {
                    let m = to_owned_string(violations[i].message.as_str());
                    proof {
                        lemma_string_views_push(msgs@, m);
                        assert(violation_messages(violations@).take(i + 1) =~= violation_messages(
                            violations@,
                        ).take(i as int).push(m@));
                    }
                    msgs.push(m);
                    i += 1;
                }
                assert(violation_messages(violations@).take(i as int) =~= violation_messages(
                    violations@,
                ));
                let mut s = to_owned_string("simulation exceeded profile '");
                push_str(&mut s, profile.as_str());
                push_str(&mut s, "' ceilings (");
                push_str(&mut s, decimal_string(violations.len() as u64).as_str());
                push_str(&mut s, " violation(s)): ");
                push_str(&mut s, join(&msgs, "; ").as_str());
                s
            },
        }
    }
}

/// The ledger footprint a transaction must declare, decoded from the
/// `transactionData` XDR returned by simulation.
#[derive(Debug, Clone, PartialEq, Eq)]
pub struct SimulationFootprint {
    /// Number of read-only ledger keys.
    pub read_only_entries: usize,
    /// Number of read-write ledger keys.
    pub read_write_entries: usize,
    /// Bytes read from the ledger.
    pub read_bytes: u32,
    /// Bytes written back to the ledger.
    pub write_bytes: u32,
    /// CPU instructions declared in the resources of `transactionData`.
    pub instructions: u32,
    /// Resource fee (stroops) baked into `transactionData` by the simulator.
    pub resource_fee_stroops: i64,
}

impl SimulationFootprint {
    /// Total number of ledger entries touched.
    pub fn total_entries(&self) -> (r: usize)
        requires
            self.read_only_entries + self.read_write_entries <= usize::MAX,
        ensures
            r == self.read_only_entries + self.read_write_entries,
    {
        self.read_only_entries + self.read_write_entries
    }
}

/// Resource accounting extracted from a `simulateTransaction` response.
#[derive(Debug, Clone, PartialEq, Eq)]
pub struct SimulationResources {
    /// Minimum resource fee in stroops the transaction must carry.
    pub min_resource_fee_stroops: u64,
    /// CPU instructions consumed, when reported.
    pub cpu_instructions: Option<u64>,
    /// Linear memory high-water mark in bytes, when reported.
    pub memory_bytes: Option<u64>,
    /// Declared ledger footprint, when `transactionData` was present.
    pub footprint: Option<SimulationFootprint>,
    /// Ledger the simulation ran against.
    pub latest_ledger: Option<u32>,
    /// Extra resource fee of the restore transaction that must run first
    /// when the footprint touches archived entries.
    pub restore_fee_stroops: Option<u64>,
    /// Non-fatal notes about fields the server did not provide.
    pub warnings: Vec<String>,
}

impl Default for SimulationResources {
    fn default() -> (r: Self)
        ensures
            r.min_resource_fee_stroops == 0,
            r.cpu_instructions is None,
            r.memory_bytes is None,
            r.footprint is None,
            r.latest_ledger is None,
            r.restore_fee_stroops is None,
            r.warnings@.len() == 0,
    {
        SimulationResources {
            min_resource_fee_stroops: 0,
            cpu_instructions: None,
            memory_bytes: None,
            footprint: None,
            latest_ledger: None,
            restore_fee_stroops: None,
            warnings: Vec::new(),
        }
    }
}

impl SimulationResources {
    /// Archived ledger entries must be restored before this transaction can
    /// succeed.
    pub fn requires_restore(&self) -> (r: bool)
        ensures
            r == self.restore_fee_stroops is Some,
    {
        self.restore_fee_stroops.is_some()
    }
}

/// A submittable fee derived from simulation output.
#[derive(Debug, Clone, PartialEq, Eq)]
pub struct ResourceFeePlan {
    /// Minimum resource fee reported by simulation.
    pub min_resource_fee_stroops: u64,
    /// Resource fee of the prerequisite restore transaction, if any.
    pub restore_fee_stroops: u64,
    /// Per-operation inclusion (base) fee.
    pub inclusion_fee_stroops: u64,
    /// Safety margin applied to the resource fees, as a percentage.
    pub margin_percent: u32,
    /// Absolute stroops the margin adds.
    pub margin_stroops: u64,
    /// Fee to put on the transaction: resource + restore + margin + inclusion.
    pub recommended_fee_stroops: u64,
}

/// Resource fees (minimum plus restore) of a simulation.
pub open spec fn resource_total(r: SimulationResources) -> int {
    r.min_resource_fee_stroops + match r.restore_fee_stroops {
        Some(f) => f as int,
        None => 0,
    }
}

/// Derives a submittable fee. The margin applies to the resource fees only
/// (rounded down); the flat inclusion fee is added afterwards. Every step is
/// overflow-checked, so a hostile response cannot wrap the total.
pub fn plan_fee(
    resources: &SimulationResources,
    margin_percent: u32,
    inclusion_fee_stroops: u64,
) -> (r: Result<ResourceFeePlan, SimulationResourceError>)
    ensures
        margin_percent > MAX_FEE_MARGIN_PERCENT ==> r == Err::<ResourceFeePlan, SimulationResourceError>(
            SimulationResourceError::InvalidMargin(margin_percent),
        ),
        margin_percent <= MAX_FEE_MARGIN_PERCENT ==> {
            let total = resource_total(*resources);
            let margin = total * margin_percent / 100;
            if total > u64::MAX || total * margin_percent > u64::MAX || total + margin
                + inclusion_fee_stroops > u64::MAX {
                r == Err::<ResourceFeePlan, SimulationResourceError>(
                    SimulationResourceError::FeeOverflow,
                )
            } else {
                r matches Ok(p) && p.min_resource_fee_stroops == resources.min_resource_fee_stroops
                    && p.restore_fee_stroops == total - resources.min_resource_fee_stroops
                    && p.inclusion_fee_stroops == inclusion_fee_stroops && p.margin_percent
                    == margin_percent && p.margin_stroops == margin && p.recommended_fee_stroops
                    == total + margin + inclusion_fee_stroops
            }
        },
{
    if margin_percent > MAX_FEE_MARGIN_PERCENT {
        return Err(SimulationResourceError::InvalidMargin(margin_percent));
    }
    let restore_fee_stroops = match resources.restore_fee_stroops {
        Some(f) => f,
        None => 0,
    };
    let resource_total = match resources.min_resource_fee_stroops.checked_add(restore_fee_stroops) {
        Some(t) => t,
        None => {
            return Err(SimulationResourceError::FeeOverflow);
        },
    };
    let scaled = match resource_total.checked_mul(margin_percent as u64) {
        Some(m) => m,
        None => {
            return Err(SimulationResourceError::FeeOverflow);
        },
    };
    let margin_stroops = scaled / 100;
    let with_margin = match resource_total.checked_add(margin_stroops) {
        Some(v) => v,
        None => {
            return Err(SimulationResourceError::FeeOverflow);
        },
    };
    let recommended_fee_stroops = match with_margin.checked_add(inclusion_fee_stroops) {
        Some(v) => v,
        None => {
            return Err(SimulationResourceError::FeeOverflow);
        },
    };
    Ok(
        ResourceFeePlan {
            min_resource_fee_stroops: resources.min_resource_fee_stroops,
            restore_fee_stroops,
            inclusion_fee_stroops,
            margin_percent,
            margin_stroops,
            recommended_fee_stroops,
        },
    )
}

/// A deterministic simulation profile: resource ceilings and defaults.
#[derive(Debug, Clone, PartialEq, Eq)]
pub struct SimulationProfile {
    /// Name of the profile (`ci-smoke`, `ci-full`, `dev-fast`).
    pub name: String,
    /// What the profile is for.
    pub description: String,
    pub max_cpu_instructions: u64,
    pub max_memory_bytes: u64,
    pub max_read_bytes: u64,
    pub max_write_bytes: u64,
    /// Maximum footprint entries (read-only plus read-write).
    pub max_total_entries: usize,
    pub max_fee_stroops: u64,
    /// Default safety margin percent in this profile.
    pub default_margin_percent: u32,
}

/// The ceilings of a profile, in field order: cpu, memory, read bytes,
/// write bytes, entries, fee, margin.
pub open spec fn ceilings(p: SimulationProfile) -> (u64, u64, u64, u64, usize, u64, u32) {
    (
        p.max_cpu_instructions,
        p.max_memory_bytes,
        p.max_read_bytes,
        p.max_write_bytes,
        p.max_total_entries,
        p.max_fee_stroops,
        p.default_margin_percent,
    )
}

/// The names of the built-in profiles, in order.
pub open spec fn built_in_names() -> Seq<Seq<char>> {
    seq!["ci-smoke"@, "ci-full"@, "dev-fast"@]
}

/// The ceilings of the built-in profiles, in order.
pub open spec fn built_in_ceilings() -> Seq<(u64, u64, u64, u64, usize, u64, u32)> {
    seq![
        (2_000_000u64, 2_097_152u64, 32_768u64, 8_192u64, 10usize, 100_000u64, 20u32),
        (100_000_000u64, 41_943_040u64, 200_000u64, 100_000u64, 100usize, 10_000_000u64, 20u32),
        (50_000_000u64, 20_971_520u64, 100_000u64, 50_000u64, 50usize, 5_000_000u64, 10u32),
    ]
}

/// `v` holds the built-in profiles, in order.
pub open spec fn is_built_in_list(v: Seq<SimulationProfile>) -> bool {
    &&& v.len() == 3
    &&& forall|i: int| 0 <= i < 3 ==> #[trigger] v[i].name@ == built_in_names()[i] && ceilings(v[i])
        == built_in_ceilings()[i]
}

/// All built-in deterministic simulation profiles.
pub fn built_in_profiles() -> (r: Vec<SimulationProfile>)
    ensures
        is_built_in_list(r@),
{
    let r = vec![
        SimulationProfile {
            name: to_owned_string("ci-smoke"),
            description: to_owned_string("Strict tight resource limits for fast CI sanity checks"),
            max_cpu_instructions: 2_000_000,
            max_memory_bytes: 2_097_152,
            max_read_bytes: 32_768,
            max_write_bytes: 8_192,
            max_total_entries: 10,
            max_fee_stroops: 100_000,
            default_margin_percent: 20,
        },
        SimulationProfile {
            name: to_owned_string("ci-full"),
            description: to_owned_string(
                "Standard production-grade ceilings for full CI test pipelines",
            ),
            max_cpu_instructions: 100_000_000,
            max_memory_bytes: 41_943_040,
            max_read_bytes: 200_000,
            max_write_bytes: 100_000,
            max_total_entries: 100,
            max_fee_stroops: 10_000_000,
            default_margin_percent: 20,
        },
        SimulationProfile {
            name: to_owned_string("dev-fast"),
            description: to_owned_string(
                "Relaxed developer iteration limits with lower margin for rapid loops",
            ),
            max_cpu_instructions: 50_000_000,
            max_memory_bytes: 20_971_520,
            max_read_bytes: 100_000,
            max_write_bytes: 50_000,
            max_total_entries: 50,
            max_fee_stroops: 5_000_000,
            default_margin_percent: 10,
        },
    ];
    assert(forall|i: int| 0 <= i < 3 ==> #[trigger] r@[i].name@ == built_in_names()[i] && ceilings(
        r@[i],
    ) == built_in_ceilings()[i]);
    r
}

/// A copy of a profile.
fn copy_profile(p: &SimulationProfile) -> (r: SimulationProfile)
    ensures
        r.name@ == p.name@,
        r.description@ == p.description@,
        ceilings(r) == ceilings(*p),
{
    SimulationProfile {
        name: to_owned_string(p.name.as_str()),
        description: to_owned_string(p.description.as_str()),
        max_cpu_instructions: p.max_cpu_instructions,
        max_memory_bytes: p.max_memory_bytes,
        max_read_bytes: p.max_read_bytes,
        max_write_bytes: p.max_write_bytes,
        max_total_entries: p.max_total_entries,
        max_fee_stroops: p.max_fee_stroops,
        default_margin_percent: p.default_margin_percent,
    }
}

/// Names compare equal ignoring ASCII case (`str::eq_ignore_ascii_case`).
pub open spec fn same_name(a: Seq<char>, b: Seq<char>) -> bool {
    ascii_lower_seq(a) == ascii_lower_seq(b)
}

/// The message of the error for an unknown profile names the profile that
/// was asked for and lists the built-in profiles in order: it holds
/// "unknown simulation profile" and "ci-smoke".
pub proof fn law_unknown_profile_message(name: String, available: Vec<String>)
    requires
        string_views(available@) == built_in_names(),
    ensures
        error_text(SimulationResourceError::UnknownProfile { name, available })
            == "unknown simulation profile '"@ + name@
            + "'; available profiles: ci-smoke, ci-full, dev-fast"@,
        contains_seq(
            error_text(SimulationResourceError::UnknownProfile { name, available }),
            "unknown simulation profile"@,
        ),
        contains_seq(
            error_text(SimulationResourceError::UnknownProfile { name, available }),
            "ci-smoke"@,
        ),
{
    reveal_strlit("unknown simulation profile '");
    reveal_strlit("'; available profiles: ");
    reveal_strlit("'; available profiles: ci-smoke, ci-full, dev-fast");
    reveal_strlit("unknown simulation profile");
    reveal_strlit("ci-smoke");
    reveal_strlit("ci-full");
    reveal_strlit("dev-fast");
    reveal_strlit(", ");
    let parts = built_in_names();
    let p2 = parts.drop_last();
    assert(p2 =~= seq!["ci-smoke"@, "ci-full"@]);
    assert(p2.drop_last() =~= seq!["ci-smoke"@]);
    assert(join_spec(p2.drop_last(), ", "@) == "ci-smoke"@);
    assert(p2.last() == "ci-full"@);
    assert(join_spec(p2, ", "@) == "ci-smoke"@ + ", "@ + "ci-full"@);
    let joined = join_spec(parts, ", "@);
    assert(joined == "ci-smoke"@ + ", "@ + "ci-full"@ + ", "@ + "dev-fast"@);
    let text = error_text(SimulationResourceError::UnknownProfile { name, available });
    assert(text =~= "unknown simulation profile '"@ + name@
        + "'; available profiles: ci-smoke, ci-full, dev-fast"@);
    assert(text.subrange(0, 26) =~= "unknown simulation profile"@);
    assert(crate::text::occurs_at(text, "unknown simulation profile"@, 0));
    let at: int = (28 + name@.len() + 23) as int;
    assert(text.subrange(at, at + 8) =~= "ci-smoke"@);
    assert(crate::text::occurs_at(text, "ci-smoke"@, at));
}

/// Looks a built-in profile up by name, ignoring ASCII case.
pub fn get_profile(name: &str) -> (r: Result<SimulationProfile, SimulationResourceError>)
    ensures
        match r {
            Ok(p) => exists|i: int|
                0 <= i < 3 && same_name(built_in_names()[i], name@) && p.name@ == built_in_names()[i]
                    && ceilings(p) == built_in_ceilings()[i] && forall|j: int|
                    0 <= j < i ==> !same_name(#[trigger] built_in_names()[j], name@),
            Err(SimulationResourceError::UnknownProfile { name: n, available }) => n@ == name@
                && string_views(available@) == built_in_names() && forall|j: int|
                0 <= j < 3 ==> !same_name(#[trigger] built_in_names()[j], name@),
            Err(_) => false,
        },
{
    let profiles = built_in_profiles();
    let wanted = ascii_lowercase(&chars_of(name));
    let mut i: usize = 0;
    while i < profiles.len()
        invariant
            is_built_in_list(profiles@),
            wanted@ == ascii_lower_seq(name@),
            i <= 3,
            profiles@.len() == 3,
            forall|j: int| 0 <= j < i ==> !same_name(#[trigger] built_in_names()[j], name@),
        decreases 3 - i,
    {
        let candidate = ascii_lowercase(&chars_of(profiles[i].name.as_str()));
        if chars_eq(&candidate, &wanted) {
            assert(profiles@[i as int].name@ == built_in_names()[i as int]);
            return Ok(copy_profile(&profiles[i]));
        }
        assert(profiles@[i as int].name@ == built_in_names()[i as int]);
        i += 1;
    }
    let mut available: Vec<String> = Vec::new();
    let mut k: usize = 0;
    while k < profiles.len()
        invariant
            is_built_in_list(profiles@),
            profiles@.len() == 3,
            k <= 3,
            string_views(available@) == built_in_names().take(k as int),
        decreases 3 - k,
    {
        let n = to_owned_string(profiles[k].name.as_str());
        proof {
            lemma_string_views_push(available@, n);
            assert(profiles@[k as int].name@ == built_in_names()[k as int]);
            assert(built_in_names().take(k + 1) =~= built_in_names().take(k as int).push(n@));
        }
        available.push(n);
        k += 1;
    }
    assert(built_in_names().take(3) =~= built_in_names());
    Err(SimulationResourceError::UnknownProfile { name: to_owned_string(name), available })
}

/// A violation record and its message `head + actual + middle + ceiling + tail`.
pub open spec fn violation_spec(
    metric: Seq<char>,
    actual: u64,
    ceiling: u64,
    head: Seq<char>,
    middle: Seq<char>,
    tail: Seq<char>,
) -> (Seq<char>, u64, u64, Seq<char>) {
    (metric, actual, ceiling, head + decimal(actual as nat) + middle + decimal(ceiling as nat) + tail)
}

/// The view of a violation.
pub open spec fn violation_view(v: ProfileViolation) -> (Seq<char>, u64, u64, Seq<char>) {
    (v.metric@, v.actual, v.ceiling, v.message@)
}

/// `item` when `cond` holds, nothing otherwise.
pub open spec fn when<T>(cond: bool, item: T) -> Seq<T> {
    if cond {
        seq![item]
    } else {
        Seq::empty()
    }
}

/// The ceilings a simulation breaches, in the order cpu, memory, footprint
/// entries, read bytes, write bytes, recommended fee.
pub open spec fn violations_spec(
    res: SimulationResources,
    plan: ResourceFeePlan,
    p: SimulationProfile,
) -> Seq<(Seq<char>, u64, u64, Seq<char>)> {
    let mid = " exceeded profile ceiling of "@;
    let cpu = match res.cpu_instructions {
        Some(c) => when(
            c > p.max_cpu_instructions,
            violation_spec("cpu_instructions"@, c, p.max_cpu_instructions, "CPU instructions "@, mid, ""@),
        ),
        None => Seq::empty(),
    };
    let mem = match res.memory_bytes {
        Some(m) => when(
            m > p.max_memory_bytes,
            violation_spec("memory_bytes"@, m, p.max_memory_bytes, "Memory bytes "@, mid, ""@),
        ),
        None => Seq::empty(),
    };
    let fp = match res.footprint {
        Some(f) => {
            let total = (f.read_only_entries + f.read_write_entries) as u64;
            when(
                total > p.max_total_entries,
                violation_spec(
                    "footprint_entries"@,
                    total,
                    p.max_total_entries as u64,
                    "Footprint total entries "@,
                    mid,
                    ""@,
                ),
            ) + when(
                f.read_bytes > p.max_read_bytes,
                violation_spec("read_bytes"@, f.read_bytes as u64, p.max_read_bytes, "Ledger read bytes "@, mid, ""@),
            ) + when(
                f.write_bytes > p.max_write_bytes,
                violation_spec(
                    "write_bytes"@,
                    f.write_bytes as u64,
                    p.max_write_bytes,
                    "Ledger write bytes "@,
                    mid,
                    ""@,
                ),
            )
        },
        None => Seq::empty(),
    };
    let fee = when(
        plan.recommended_fee_stroops > p.max_fee_stroops,
        violation_spec(
            "recommended_fee_stroops"@,
            plan.recommended_fee_stroops,
            p.max_fee_stroops,
            "Recommended fee "@,
            " stroops exceeded profile ceiling of "@,
            " stroops"@,
        ),
    );
    cpu + mem + fp + fee
}

fn violation(
    metric: &str,
    actual: u64,
    ceiling: u64,
    head: &str,
    middle: &str,
    tail: &str,
) -> (r: ProfileViolation)
    ensures
        violation_view(r) == violation_spec(metric@, actual, ceiling, head@, middle@, tail@),
{
    let mut message = to_owned_string(head);
    push_str(&mut message, decimal_string(actual).as_str());
    push_str(&mut message, middle);
    push_str(&mut message, decimal_string(ceiling).as_str());
    push_str(&mut message, tail);
    ProfileViolation { metric: to_owned_string(metric), actual, ceiling, message }
}

/// Checks a simulation and its fee plan against a profile's ceilings; the
/// result lists every breached ceiling, in a fixed order.
pub fn validate_against_profile(
    resources: &SimulationResources,
    plan: &ResourceFeePlan,
    profile: &SimulationProfile,
) -> (r: Vec<ProfileViolation>)
    requires
        resources.footprint matches Some(f) ==> f.read_only_entries + f.read_write_entries
            <= usize::MAX,
    ensures
        r@.map_values(|v: ProfileViolation| violation_view(v)) == violations_spec(
            *resources,
            *plan,
            *profile,
        ),
        (exists|i: int| 0 <= i < r@.len() && #[trigger] r@[i].metric@ == "recommended_fee_stroops"@)
            <==> plan.recommended_fee_stroops > profile.max_fee_stroops,
        forall|i: int|
            0 <= i < r@.len() && #[trigger] r@[i].metric@ == "recommended_fee_stroops"@ ==> r@[i].actual
                == plan.recommended_fee_stroops && r@[i].ceiling == profile.max_fee_stroops,
{
    proof {
        reveal_strlit("");
        law_fee_ceiling_checks_recommended_fee(*resources, *plan, *profile);
    }
    let mut violations: Vec<ProfileViolation> = Vec::new();
    let ghost mut expected: Seq<(Seq<char>, u64, u64, Seq<char>)> = Seq::empty();
    let mid = " exceeded profile ceiling of ";
    match resources.cpu_instructions {
        Some(cpu) => {
            if cpu > profile.max_cpu_instructions {
                violations.push(
                    violation(
                        "cpu_instructions",
                        cpu,
                        profile.max_cpu_instructions,
                        "CPU instructions ",
                        mid,
                        "",
                    ),
                );
            }
        },
        None => {},
    }
    match resources.memory_bytes {
        Some(mem) => {
            if mem > profile.max_memory_bytes {
                violations.push(
                    violation("memory_bytes", mem, profile.max_memory_bytes, "Memory bytes ", mid, ""),
                );
            }
        },
        None => {},
    }
    match &resources.footprint {
        Some(fp) => {
            let total_entries = fp.total_entries() as u64;
            if total_entries > profile.max_total_entries as u64 {
                violations.push(
                    violation(
                        "footprint_entries",
                        total_entries,
                        profile.max_total_entries as u64,
                        "Footprint total entries ",
                        mid,
                        "",
                    ),
                );
            }
            let read_bytes = fp.read_bytes as u64;
            if read_bytes > profile.max_read_bytes {
                violations.push(
                    violation(
                        "read_bytes",
                        read_bytes,
                        profile.max_read_bytes,
                        "Ledger read bytes ",
                        mid,
                        "",
                    ),
                );
            }
            let write_bytes = fp.write_bytes as u64;
            if write_bytes > profile.max_write_bytes {
                violations.push(
                    violation(
                        "write_bytes",
                        write_bytes,
                        profile.max_write_bytes,
                        "Ledger write bytes ",
                        mid,
                        "",
                    ),
                );
            }
        },
        None => {},
    }
    if plan.recommended_fee_stroops > profile.max_fee_stroops {
        violations.push(
            violation(
                "recommended_fee_stroops",
                plan.recommended_fee_stroops,
                profile.max_fee_stroops,
                "Recommended fee ",
                " stroops exceeded profile ceiling of ",
                " stroops",
            ),
        );
    }
    assert(violations@.map_values(|v: ProfileViolation| violation_view(v)) =~= violations_spec(
        *resources,
        *plan,
        *profile,
    ));
    proof {
        let vs = violations_spec(*resources, *plan, *profile);
        let views = violations@.map_values(|v: ProfileViolation| violation_view(v));
        assert(views.len() == vs.len());
        assert forall|i: int| 0 <= i < violations@.len() implies #[trigger] violations@[i].metric@ == vs[i].0
            && violations@[i].actual == vs[i].1 && violations@[i].ceiling == vs[i].2 by {
            assert(views[i] == vs[i]);
        }
        if plan.recommended_fee_stroops > profile.max_fee_stroops {
            let i = choose|i: int| 0 <= i < vs.len() && #[trigger] vs[i].0 == "recommended_fee_stroops"@;
            assert(violations@[i].metric@ == "recommended_fee_stroops"@);
        } else {
            assert forall|i: int| 0 <= i < violations@.len() implies #[trigger] violations@[i].metric@
                != "recommended_fee_stroops"@ by {
                assert(violations@[i].metric@ == vs[i].0);
            }
        }
    }
    violations
}

/// `vs` reports the metric `m`.
pub open spec fn reports_metric(vs: Seq<(Seq<char>, u64, u64, Seq<char>)>, m: Seq<char>) -> bool {
    exists|i: int| 0 <= i < vs.len() && #[trigger] vs[i].0 == m
}

/// Every report of the metric `m` in `vs` carries `actual` and `ceiling`.
pub open spec fn reports_values(
    vs: Seq<(Seq<char>, u64, u64, Seq<char>)>,
    m: Seq<char>,
    actual: u64,
    ceiling: u64,
) -> bool {
    forall|i: int| 0 <= i < vs.len() && #[trigger] vs[i].0 == m ==> vs[i].1 == actual && vs[i].2 == ceiling
}

proof fn lemma_reports_concat(
    a: Seq<(Seq<char>, u64, u64, Seq<char>)>,
    b: Seq<(Seq<char>, u64, u64, Seq<char>)>,
    m: Seq<char>,
    actual: u64,
    ceiling: u64,
)
    ensures
        reports_metric(a + b, m) == (reports_metric(a, m) || reports_metric(b, m)),
        reports_values(a + b, m, actual, ceiling) == (reports_values(a, m, actual, ceiling)
            && reports_values(b, m, actual, ceiling)),
{
    let ab = a + b;
    if reports_metric(ab, m) {
        let i = choose|i: int| 0 <= i < ab.len() && #[trigger] ab[i].0 == m;
        if i < a.len() {
            assert(ab[i] == a[i]);
        } else {
            assert(ab[i] == b[i - a.len()]);
        }
    }
    if reports_metric(a, m) {
        let i = choose|i: int| 0 <= i < a.len() && #[trigger] a[i].0 == m;
        assert(ab[i] == a[i]);
    }
    if reports_metric(b, m) {
        let i = choose|i: int| 0 <= i < b.len() && #[trigger] b[i].0 == m;
        assert(ab[a.len() + i] == b[i]);
    }
    if reports_values(ab, m, actual, ceiling) {
        assert forall|i: int| 0 <= i < a.len() && #[trigger] a[i].0 == m implies a[i].1 == actual
            && a[i].2 == ceiling by {
            assert(ab[i] == a[i]);
        }
        assert forall|i: int| 0 <= i < b.len() && #[trigger] b[i].0 == m implies b[i].1 == actual
            && b[i].2 == ceiling by {
            assert(ab[a.len() + i] == b[i]);
        }
    }
    if reports_values(a, m, actual, ceiling) && reports_values(b, m, actual, ceiling) {
        assert forall|i: int| 0 <= i < ab.len() && #[trigger] ab[i].0 == m implies ab[i].1 == actual
            && ab[i].2 == ceiling by {
            if i < a.len() {
                assert(ab[i] == a[i]);
            } else {
                assert(ab[i] == b[i - a.len()]);
            }
        }
    }
}

proof fn lemma_reports_when(
    cond: bool,
    item: (Seq<char>, u64, u64, Seq<char>),
    m: Seq<char>,
    actual: u64,
    ceiling: u64,
)
    ensures
        reports_metric(when(cond, item), m) == (cond && item.0 == m),
        reports_values(when(cond, item), m, actual, ceiling) == (!cond || item.0 != m || (item.1
            == actual && item.2 == ceiling)),
{
    if cond {
        assert(when(cond, item)[0] == item);
    }
}

/// Each ceiling of the profile is checked against its own measure: CPU
/// instructions and memory bytes when the simulation reports them; the
/// footprint's total entries, read bytes and write bytes when it has a
/// footprint. A metric is reported exactly when its measure is above its
/// ceiling, and the report carries that measure and that ceiling.
pub proof fn law_each_ceiling_is_checked(res: SimulationResources, plan: ResourceFeePlan, p: SimulationProfile)
    requires
        res.footprint matches Some(f) ==> f.read_only_entries + f.read_write_entries <= usize::MAX,
    ensures
        reports_metric(violations_spec(res, plan, p), "cpu_instructions"@) <==> (res.cpu_instructions matches Some(
            c,
        ) && c > p.max_cpu_instructions),
        res.cpu_instructions matches Some(c) ==> reports_values(
            violations_spec(res, plan, p),
            "cpu_instructions"@,
            c,
            p.max_cpu_instructions,
        ),
        reports_metric(violations_spec(res, plan, p), "memory_bytes"@) <==> (res.memory_bytes matches Some(m)
            && m > p.max_memory_bytes),
        res.memory_bytes matches Some(m) ==> reports_values(
            violations_spec(res, plan, p),
            "memory_bytes"@,
            m,
            p.max_memory_bytes,
        ),
        reports_metric(violations_spec(res, plan, p), "footprint_entries"@) <==> (res.footprint matches Some(f)
            && f.read_only_entries + f.read_write_entries > p.max_total_entries),
        res.footprint matches Some(f) ==> reports_values(
            violations_spec(res, plan, p),
            "footprint_entries"@,
            (f.read_only_entries + f.read_write_entries) as u64,
            p.max_total_entries as u64,
        ),
        reports_metric(violations_spec(res, plan, p), "read_bytes"@) <==> (res.footprint matches Some(f)
            && f.read_bytes > p.max_read_bytes),
        res.footprint matches Some(f) ==> reports_values(
            violations_spec(res, plan, p),
            "read_bytes"@,
            f.read_bytes as u64,
            p.max_read_bytes,
        ),
        reports_metric(violations_spec(res, plan, p), "write_bytes"@) <==> (res.footprint matches Some(f)
            && f.write_bytes > p.max_write_bytes),
        res.footprint matches Some(f) ==> reports_values(
            violations_spec(res, plan, p),
            "write_bytes"@,
            f.write_bytes as u64,
            p.max_write_bytes,
        ),
{
    reveal_strlit("recommended_fee_stroops");
    reveal_strlit("cpu_instructions");
    reveal_strlit("memory_bytes");
    reveal_strlit("footprint_entries");
    reveal_strlit("read_bytes");
    reveal_strlit("write_bytes");
    assert("recommended_fee_stroops"@.len() == 23);
    assert("cpu_instructions"@.len() == 16);
    assert("memory_bytes"@.len() == 12);
    assert("footprint_entries"@.len() == 17);
    assert("read_bytes"@.len() == 10);
    assert("write_bytes"@.len() == 11);
    let c = match res.cpu_instructions {
        Some(x) => x,
        None => 0,
    };
    let m = match res.memory_bytes {
        Some(x) => x,
        None => 0,
    };
    let (t, r, w) = match res.footprint {
        Some(f) => ((f.read_only_entries + f.read_write_entries) as u64, f.read_bytes as u64, f.write_bytes as u64),
        None => (0, 0, 0),
    };
    lemma_violation_parts(res, plan, p, "cpu_instructions"@, c, p.max_cpu_instructions);
    lemma_violation_parts(res, plan, p, "memory_bytes"@, m, p.max_memory_bytes);
    lemma_violation_parts(res, plan, p, "footprint_entries"@, t, p.max_total_entries as u64);
    lemma_violation_parts(res, plan, p, "read_bytes"@, r, p.max_read_bytes);
    lemma_violation_parts(res, plan, p, "write_bytes"@, w, p.max_write_bytes);
}

spec fn cpu_part(res: SimulationResources, p: SimulationProfile) -> Seq<(Seq<char>, u64, u64, Seq<char>)> {
    match res.cpu_instructions {
        Some(c) => when(c > p.max_cpu_instructions, cp_item(c, p)),
        None => Seq::empty(),
    }
}

spec fn cp_item(c: u64, p: SimulationProfile) -> (Seq<char>, u64, u64, Seq<char>) {
    violation_spec(
        "cpu_instructions"@,
        c,
        p.max_cpu_instructions,
        "CPU instructions "@,
        " exceeded profile ceiling of "@,
        ""@,
    )
}

spec fn mem_part(res: SimulationResources, p: SimulationProfile) -> Seq<(Seq<char>, u64, u64, Seq<char>)> {
    match res.memory_bytes {
        Some(m) => when(m > p.max_memory_bytes, mp_item(m, p)),
        None => Seq::empty(),
    }
}

spec fn mp_item(m: u64, p: SimulationProfile) -> (Seq<char>, u64, u64, Seq<char>) {
    violation_spec("memory_bytes"@, m, p.max_memory_bytes, "Memory bytes "@, " exceeded profile ceiling of "@, ""@)
}

spec fn fp_item(f: SimulationFootprint, p: SimulationProfile, k: int) -> (Seq<char>, u64, u64, Seq<char>) {
    let mid = " exceeded profile ceiling of "@;
    if k == 0 {
        violation_spec(
            "footprint_entries"@,
            (f.read_only_entries + f.read_write_entries) as u64,
            p.max_total_entries as u64,
            "Footprint total entries "@,
            mid,
            ""@,
        )
    } else if k == 1 {
        violation_spec("read_bytes"@, f.read_bytes as u64, p.max_read_bytes, "Ledger read bytes "@, mid, ""@)
    } else {
        violation_spec("write_bytes"@, f.write_bytes as u64, p.max_write_bytes, "Ledger write bytes "@, mid, ""@)
    }
}

/// The footprint's checks, piece by piece.
proof fn lemma_footprint_part(
    f: SimulationFootprint,
    p: SimulationProfile,
    m: Seq<char>,
    a: u64,
    c: u64,
)
    ensures
        ({
            let s = when((f.read_only_entries + f.read_write_entries) as u64 > p.max_total_entries as u64, fp_item(f, p, 0))
                + when(f.read_bytes > p.max_read_bytes, fp_item(f, p, 1)) + when(
                f.write_bytes > p.max_write_bytes,
                fp_item(f, p, 2),
            );
            &&& reports_metric(s, m) == (((f.read_only_entries + f.read_write_entries) as u64
                > p.max_total_entries as u64 && m == fp_item(f, p, 0).0) || (f.read_bytes > p.max_read_bytes
                && m == fp_item(f, p, 1).0) || (f.write_bytes > p.max_write_bytes && m == fp_item(f, p, 2).0))
            &&& reports_values(s, m, a, c) == ((!((f.read_only_entries + f.read_write_entries) as u64
                > p.max_total_entries as u64 && m == fp_item(f, p, 0).0) || (fp_item(f, p, 0).1 == a
                && fp_item(f, p, 0).2 == c)) && (!(f.read_bytes > p.max_read_bytes && m == fp_item(f, p, 1).0)
                || (fp_item(f, p, 1).1 == a && fp_item(f, p, 1).2 == c)) && (!(f.write_bytes
                > p.max_write_bytes && m == fp_item(f, p, 2).0) || (fp_item(f, p, 2).1 == a && fp_item(
                f,
                p,
                2,
            ).2 == c)))
        }),
{
    let w0 = when((f.read_only_entries + f.read_write_entries) as u64 > p.max_total_entries as u64, fp_item(f, p, 0));
    let w1 = when(f.read_bytes > p.max_read_bytes, fp_item(f, p, 1));
    let w2 = when(f.write_bytes > p.max_write_bytes, fp_item(f, p, 2));
    lemma_reports_when((f.read_only_entries + f.read_write_entries) as u64 > p.max_total_entries as u64, fp_item(f, p, 0), m, a, c);
    lemma_reports_when(f.read_bytes > p.max_read_bytes, fp_item(f, p, 1), m, a, c);
    lemma_reports_when(f.write_bytes > p.max_write_bytes, fp_item(f, p, 2), m, a, c);
    lemma_reports_concat(w0, w1, m, a, c);
    lemma_reports_concat(w0 + w1, w2, m, a, c);
}

/// The reports of the metric `m` in the violation list, checked piece by
/// piece.
proof fn lemma_violation_parts(
    res: SimulationResources,
    plan: ResourceFeePlan,
    p: SimulationProfile,
    m: Seq<char>,
    a: u64,
    c: u64,
)
    requires
        res.footprint matches Some(f) ==> f.read_only_entries + f.read_write_entries <= usize::MAX,
    ensures
        reports_metric(violations_spec(res, plan, p), m) == ((res.cpu_instructions matches Some(x) && x
            > p.max_cpu_instructions && m == "cpu_instructions"@) || (res.memory_bytes matches Some(x) && x
            > p.max_memory_bytes && m == "memory_bytes"@) || (res.footprint matches Some(f) && (((
        f.read_only_entries + f.read_write_entries) > p.max_total_entries && m == "footprint_entries"@)
            || (f.read_bytes > p.max_read_bytes && m == "read_bytes"@) || (f.write_bytes
            > p.max_write_bytes && m == "write_bytes"@))) || (plan.recommended_fee_stroops
            > p.max_fee_stroops && m == "recommended_fee_stroops"@)),
        reports_values(violations_spec(res, plan, p), m, a, c) == ((res.cpu_instructions matches Some(x)
            ==> (x > p.max_cpu_instructions && m == "cpu_instructions"@ ==> x == a && p.max_cpu_instructions
            == c)) && (res.memory_bytes matches Some(x) ==> (x > p.max_memory_bytes && m == "memory_bytes"@
            ==> x == a && p.max_memory_bytes == c)) && (res.footprint matches Some(f) ==> ((
        f.read_only_entries + f.read_write_entries > p.max_total_entries && m == "footprint_entries"@
            ==> (f.read_only_entries + f.read_write_entries) as u64 == a && p.max_total_entries as u64
            == c) && (f.read_bytes > p.max_read_bytes && m == "read_bytes"@ ==> f.read_bytes as u64 == a
            && p.max_read_bytes == c) && (f.write_bytes > p.max_write_bytes && m == "write_bytes"@
            ==> f.write_bytes as u64 == a && p.max_write_bytes == c))) && (plan.recommended_fee_stroops
            > p.max_fee_stroops && m == "recommended_fee_stroops"@ ==> plan.recommended_fee_stroops == a
            && p.max_fee_stroops == c)),
{
    let cp = cpu_part(res, p);
    let mp = mem_part(res, p);
    let fp = match res.footprint {
        Some(f) => when((f.read_only_entries + f.read_write_entries) as u64 > p.max_total_entries as u64, fp_item(f, p, 0))
            + when(f.read_bytes > p.max_read_bytes, fp_item(f, p, 1)) + when(
            f.write_bytes > p.max_write_bytes,
            fp_item(f, p, 2),
        ),
        None => Seq::empty(),
    };
    let fee = when(
        plan.recommended_fee_stroops > p.max_fee_stroops,
        violation_spec(
            "recommended_fee_stroops"@,
            plan.recommended_fee_stroops,
            p.max_fee_stroops,
            "Recommended fee "@,
            " stroops exceeded profile ceiling of "@,
            " stroops"@,
        ),
    );
    assert(violations_spec(res, plan, p) == cp + mp + fp + fee);
    lemma_reports_concat(cp, mp, m, a, c);
    lemma_reports_concat(cp + mp, fp, m, a, c);
    lemma_reports_concat(cp + mp + fp, fee, m, a, c);
    match res.cpu_instructions {
        Some(x) => lemma_reports_when(x > p.max_cpu_instructions, cp_item(x, p), m, a, c),
        None => {},
    }
    match res.memory_bytes {
        Some(x) => lemma_reports_when(x > p.max_memory_bytes, mp_item(x, p), m, a, c),
        None => {},
    }
    match res.footprint {
        Some(f) => lemma_footprint_part(f, p, m, a, c),
        None => {},
    }
    lemma_reports_when(plan.recommended_fee_stroops > p.max_fee_stroops, violation_spec(
        "recommended_fee_stroops"@,
        plan.recommended_fee_stroops,
        p.max_fee_stroops,
        "Recommended fee "@,
        " stroops exceeded profile ceiling of "@,
        " stroops"@,
    ), m, a, c);
}

/// The fee ceiling is checked against the recommended fee of the plan: a
/// `recommended_fee_stroops` violation is reported exactly when that fee is
/// above the profile's ceiling, and it carries that fee and that ceiling.
pub proof fn law_fee_ceiling_checks_recommended_fee(
    res: SimulationResources,
    plan: ResourceFeePlan,
    p: SimulationProfile,
)
    ensures
        (exists|i: int|
            0 <= i < violations_spec(res, plan, p).len() && #[trigger] violations_spec(res, plan, p)[i].0
                == "recommended_fee_stroops"@) <==> plan.recommended_fee_stroops > p.max_fee_stroops,
        forall|i: int|
            0 <= i < violations_spec(res, plan, p).len() && #[trigger] violations_spec(res, plan, p)[i].0
                == "recommended_fee_stroops"@ ==> violations_spec(res, plan, p)[i].1
                == plan.recommended_fee_stroops && violations_spec(res, plan, p)[i].2 == p.max_fee_stroops
                && violations_spec(res, plan, p)[i].3 == "Recommended fee "@ + decimal(
                plan.recommended_fee_stroops as nat,
            ) + " stroops exceeded profile ceiling of "@ + decimal(p.max_fee_stroops as nat)
                + " stroops"@,
{
    reveal_strlit("recommended_fee_stroops");
    reveal_strlit("cpu_instructions");
    reveal_strlit("memory_bytes");
    reveal_strlit("footprint_entries");
    reveal_strlit("read_bytes");
    reveal_strlit("write_bytes");
    let vs = violations_spec(res, plan, p);
    let fee_metric = "recommended_fee_stroops"@;
    assert(fee_metric.len() == 23);
    assert forall|i: int| 0 <= i < vs.len() - 1 implies #[trigger] vs[i].0.len() < 23 by {}
    if plan.recommended_fee_stroops > p.max_fee_stroops {
        assert(vs[vs.len() - 1].0 == fee_metric);
    } else {
        assert forall|i: int| 0 <= i < vs.len() implies #[trigger] vs[i].0 != fee_metric by {
            assert(vs[i].0.len() < 23);
        }
    }
}


// ── Parsing ───────────────────────────────────────────────────────────────────

/// A JSON number, as far as the parser reads it.
#[derive(Debug, Clone, PartialEq, Eq)]
pub enum JsonNumber {
    /// An integer that fits in a `u64`.
    Unsigned(u64),
    /// A negative integer that fits in an `i64`.
    Negative,
    /// Any other number (fractional, or beyond the integer ranges).
    Other,
}

/// A JSON document as the library's plain values. Object members keep the
/// parser's (key-sorted) order, each key once.
#[derive(Debug)]
pub enum JsonValue {
    Null,
    Bool(bool),
    Number(JsonNumber),
    String(String),
    Array(Vec<JsonValue>),
    Object(Vec<(String, JsonValue)>),
}

/// The `serde_json::Value` of a document: the value, or the parser's error
/// text.
pub uninterp spec fn json_of(raw: Seq<char>) -> Result<JsonValue, Seq<char>>;

/// `serde_json::from_str::<serde_json::Value>`, converted member for member
/// into a `JsonValue` (numbers by `as_u64` and `as_i64`).
#[verifier::external_body]
pub(crate) fn json_document(raw: &str) -> (r: Result<JsonValue, String>)
    ensures
        match json_of(raw@) {
            Ok(v) => r == Ok::<JsonValue, String>(v),
            Err(e) => r matches Err(m) && m@ == e,
        },
{
    match serde_json::from_str::<serde_json::Value>(raw) {
        Ok(v) => Ok(json_value_from(&v)),
        Err(e) => Err(e.to_string()),
    }
}

/// `serde_json::Value`, carried through opaque.
#[verifier::external_type_specification]
#[verifier::external_body]
pub struct ExSerdeJsonValue(serde_json::Value);

/// One `serde_json::Value`, converted variant for variant.
#[verifier::external_body]
fn json_value_from(v: &serde_json::Value) -> JsonValue {
    match v {
        Value::Null => JsonValue::Null,
        Value::Bool(b) => JsonValue::Bool(*b),
        Value::Number(n) => JsonValue::Number(match (n.as_u64(), n.as_i64()) {
            (Some(u), _) => JsonNumber::Unsigned(u),
            (None, Some(_)) => JsonNumber::Negative,
            (None, None) => JsonNumber::Other,
        }),
        Value::String(s) => JsonValue::String(s.clone()),
        Value::Array(a) => JsonValue::Array(a.iter().map(json_value_from).collect()),
        Value::Object(o) => JsonValue::Object(o.iter().map(|(k, x)| (k.clone(), json_value_from(x))).collect()),
    }
}

/// Why a simulation response was refused, as plain values.
pub enum ParseFailure {
    NotAnObject,
    RpcError(Seq<char>),
    SimulationFailed(Seq<char>),
    InvalidField(Seq<char>, Seq<char>),
    MissingField(Seq<char>),
    UnsupportedResponse(Seq<char>),
    ResponseTooLarge(usize, usize),
    Other,
}

/// The text of a parsing error, as `error_text` gives it.
pub open spec fn failure_text(p: ParseFailure) -> Seq<char> {
    match p {
        ParseFailure::NotAnObject => "simulation response is not a JSON object; expected the result of a `simulateTransaction` call"@,
        ParseFailure::RpcError(m) => "Soroban RPC returned an error: "@ + m,
        ParseFailure::SimulationFailed(m) => "simulation failed on the host: "@ + m,
        ParseFailure::InvalidField(field, reason) => "invalid `"@ + field + "` in simulation response: "@
            + reason,
        ParseFailure::MissingField(f) => "simulation response is missing `"@ + f
            + "`; cannot plan transaction resources"@,
        ParseFailure::UnsupportedResponse(m) => "unsupported simulation response: "@ + m,
        ParseFailure::ResponseTooLarge(bytes, limit) => "simulation response is "@ + decimal(bytes as nat)
            + " bytes, above the "@ + decimal(limit as nat) + " byte limit"@,
        ParseFailure::Other => Seq::empty(),
    }
}

/// A parse error's text is that of its plain form, for every error a parse
/// can give.
pub proof fn lemma_failure_text(e: SimulationResourceError)
    requires
        !(failure_of(e) is Other),
    ensures
        failure_text(failure_of(e)) == error_text(e),
{
}

/// Parsing a value never gives an error outside the parser's own.
pub proof fn lemma_parse_failure_known(v: JsonValue)
    ensures
        !(resources_spec(v) matches Err(ParseFailure::Other)),
{
    lemma_no_too_large(v);
}

/// The plain-value form of a parsing error.
pub open spec fn failure_of(e: SimulationResourceError) -> ParseFailure {
    match e {
        SimulationResourceError::NotAnObject => ParseFailure::NotAnObject,
        SimulationResourceError::RpcError(m) => ParseFailure::RpcError(m@),
        SimulationResourceError::SimulationFailed(m) => ParseFailure::SimulationFailed(m@),
        SimulationResourceError::InvalidField { field, reason } => ParseFailure::InvalidField(
            field@,
            reason@,
        ),
        SimulationResourceError::MissingField(m) => ParseFailure::MissingField(m@),
        SimulationResourceError::UnsupportedResponse(m) => ParseFailure::UnsupportedResponse(m@),
        SimulationResourceError::ResponseTooLarge { bytes, limit } => ParseFailure::ResponseTooLarge(
            bytes,
            limit,
        ),
        _ => ParseFailure::Other,
    }
}

/// Parsed resources as plain values.
pub struct ResourcesView {
    pub min_resource_fee_stroops: u64,
    pub cpu_instructions: Option<u64>,
    pub memory_bytes: Option<u64>,
    pub footprint: Option<SimulationFootprint>,
    pub latest_ledger: Option<u32>,
    pub restore_fee_stroops: Option<u64>,
    pub warnings: Seq<Seq<char>>,
}

/// The plain-value form of parsed resources.
pub open spec fn resources_view(r: SimulationResources) -> ResourcesView {
    ResourcesView {
        min_resource_fee_stroops: r.min_resource_fee_stroops,
        cpu_instructions: r.cpu_instructions,
        memory_bytes: r.memory_bytes,
        footprint: r.footprint,
        latest_ledger: r.latest_ledger,
        restore_fee_stroops: r.restore_fee_stroops,
        warnings: string_views(r.warnings@),
    }
}

/// A parse outcome as plain values.
pub open spec fn outcome_view(r: Result<SimulationResources, SimulationResourceError>) -> Result<
    ResourcesView,
    ParseFailure,
> {
    match r {
        Ok(x) => Ok(resources_view(x)),
        Err(e) => Err(failure_of(e)),
    }
}

/// Warning: the response has no `transactionData`.
pub const WARN_NO_TX_DATA: &'static str = "`transactionData` absent: footprint and declared resources are unavailable";
/// Warning: `transactionData` is an empty string.
pub const WARN_EMPTY_TX_DATA: &'static str = "`transactionData` is empty: footprint unavailable";
/// Warning: `cost.memBytes` is absent.
pub const WARN_NO_MEM: &'static str = "`cost.memBytes` not reported by this RPC server (deprecated since protocol 21)";
/// Warning: the CPU figure comes from `transactionData`.
pub const WARN_CPU_FROM_TX_DATA: &'static str = "CPU instructions taken from `transactionData` because `cost.cpuInsns` is absent";
/// Warning: archived entries need restoring first.
pub const WARN_RESTORE: &'static str = "footprint touches archived entries: a restore transaction must be submitted first";
/// Why a response without resource accounting is refused.
pub const UNSUPPORTED_RESPONSE: &'static str = "no `minResourceFee` or `transactionData`; the endpoint does not look like a Soroban RPC `simulateTransaction` result";

/// Index of the first member named `key` from index `i` on.
pub open spec fn member_index_from(f: Seq<(String, JsonValue)>, key: Seq<char>, i: int) -> Option<int>
    decreases f.len() - i,
{
    if i < 0 || i >= f.len() {
        None
    } else if f[i].0@ == key {
        Some(i)
    } else {
        member_index_from(f, key, i + 1)
    }
}

proof fn lemma_member_index_bounds(f: Seq<(String, JsonValue)>, key: Seq<char>, i: int)
    ensures
        member_index_from(f, key, i) matches Some(j) ==> 0 <= j < f.len() && f[j].0@ == key,
    decreases f.len() - i,
{
    if 0 <= i < f.len() && f[i].0@ != key {
        lemma_member_index_bounds(f, key, i + 1);
    }
}

/// The first member named `key`.
pub open spec fn member_from(f: Seq<(String, JsonValue)>, key: Seq<char>) -> Option<JsonValue> {
    match member_index_from(f, key, 0) {
        Some(j) => Some(f[j].1),
        None => None,
    }
}

/// `value.get(key)`: the member of an object, none for other values.
pub open spec fn member(v: JsonValue, key: Seq<char>) -> Option<JsonValue> {
    match v {
        JsonValue::Object(f) => member_from(f@, key),
        _ => None,
    }
}

/// A `u64` field given as a JSON number or as a string of decimal digits.
pub open spec fn u64_field(v: JsonValue, field: Seq<char>) -> Result<u64, ParseFailure> {
    match v {
        JsonValue::Number(JsonNumber::Unsigned(n)) => Ok(n),
        JsonValue::Number(JsonNumber::Negative) => Err(
            ParseFailure::InvalidField(field, "expected a non-negative integer"@),
        ),
        JsonValue::Number(JsonNumber::Other) => Err(
            ParseFailure::InvalidField(field, "expected an integer, got a fractional number"@),
        ),
        JsonValue::String(s) => {
            let t = trim(s@);
            if t.len() == 0 {
                Err(ParseFailure::InvalidField(field, "value is empty"@))
            } else if !all_digits(t) {
                Err(ParseFailure::InvalidField(field, "expected a decimal non-negative integer string"@))
            } else if digits_value(t) > u64::MAX {
                Err(ParseFailure::InvalidField(field, "value does not fit in u64 stroops"@))
            } else {
                Ok(digits_value(t) as u64)
            }
        },
        JsonValue::Null => Err(ParseFailure::InvalidField(field, "value is null"@)),
        _ => Err(ParseFailure::InvalidField(field, "expected a number or a numeric string"@)),
    }
}

/// An optional `u64` field.
pub open spec fn opt_u64_field(v: Option<JsonValue>, field: Seq<char>) -> Result<Option<u64>, ParseFailure> {
    match v {
        None => Ok(None),
        Some(x) => match u64_field(x, field) {
            Ok(n) => Ok(Some(n)),
            Err(e) => Err(e),
        },
    }
}

/// The footprint in a `SorobanTransactionData` XDR, or the reader's error
/// text.
pub uninterp spec fn soroban_footprint(bytes: Seq<u8>) -> Result<SimulationFootprint, Seq<char>>;

/// `SorobanTransactionData::from_xdr` (depth limit 100), reduced to the
/// footprint's entry counts, its byte and instruction resources and the
/// resource fee.
#[verifier::external_body]
fn read_soroban_footprint(bytes: &[u8]) -> (r: Result<SimulationFootprint, String>)
    ensures
        match soroban_footprint(bytes@) {
            Ok(fp) => r == Ok::<SimulationFootprint, String>(fp),
            Err(e) => r matches Err(m) && m@ == e,
        },
{
    match SorobanTransactionData::from_xdr(bytes, Limits::depth(100)) {
        Ok(d) => Ok(SimulationFootprint {
            read_only_entries: d.resources.footprint.read_only.len(),
            read_write_entries: d.resources.footprint.read_write.len(),
            read_bytes: d.resources.disk_read_bytes,
            write_bytes: d.resources.write_bytes,
            instructions: d.resources.instructions,
            resource_fee_stroops: d.resource_fee,
        }),
        Err(e) => Err(e.to_string()),
    }
}

/// The footprint of base64 `transactionData`.
pub open spec fn footprint_of(encoded: Seq<char>) -> Result<SimulationFootprint, ParseFailure> {
    match base64_standard_decoding(trim(encoded)) {
        Err(e) => Err(ParseFailure::InvalidField("transactionData"@, "not valid base64: "@ + e)),
        Ok(b) => match soroban_footprint(b) {
            Err(e) => Err(
                ParseFailure::InvalidField(
                    "transactionData"@,
                    "not a valid SorobanTransactionData XDR envelope: "@ + e,
                ),
            ),
            Ok(fp) => Ok(fp),
        },
    }
}

/// The footprint of `transactionData` and its warning.
pub open spec fn tx_data_spec(f: Seq<(String, JsonValue)>) -> Result<
    (Option<SimulationFootprint>, Seq<Seq<char>>),
    ParseFailure,
> {
    match member_from(f, "transactionData"@) {
        None => Ok((None, seq![WARN_NO_TX_DATA@])),
        Some(JsonValue::Null) => Ok((None, seq![WARN_NO_TX_DATA@])),
        Some(JsonValue::String(s)) => if s@.len() == 0 {
            Ok((None, seq![WARN_EMPTY_TX_DATA@]))
        } else {
            match footprint_of(s@) {
                Ok(fp) => Ok((Some(fp), Seq::empty())),
                Err(e) => Err(e),
            }
        },
        Some(_) => Err(
            ParseFailure::InvalidField("transactionData"@, "expected a base64-encoded XDR string"@),
        ),
    }
}

/// `latestLedger`, which must fit a `u32`.
pub open spec fn latest_spec(f: Seq<(String, JsonValue)>) -> Result<Option<u32>, ParseFailure> {
    match member_from(f, "latestLedger"@) {
        None => Ok(None),
        Some(v) => match u64_field(v, "latestLedger"@) {
            Err(e) => Err(e),
            Ok(x) => if x > u32::MAX {
                Err(
                    ParseFailure::InvalidField(
                        "latestLedger"@,
                        "value does not fit in a u32 ledger sequence"@,
                    ),
                )
            } else {
                Ok(Some(x as u32))
            },
        },
    }
}

/// The restore fee of `restorePreamble`, which must carry `minResourceFee`.
pub open spec fn restore_spec(f: Seq<(String, JsonValue)>) -> Result<Option<u64>, ParseFailure> {
    match member_from(f, "restorePreamble"@) {
        None => Ok(None),
        Some(JsonValue::Null) => Ok(None),
        Some(p) => match member(p, "minResourceFee"@) {
            None => Err(ParseFailure::MissingField("restorePreamble.minResourceFee"@)),
            Some(fee) => match u64_field(fee, "restorePreamble.minResourceFee"@) {
                Ok(x) => Ok(Some(x)),
                Err(e) => Err(e),
            },
        },
    }
}

/// The resources of a result object's members (after the `error` and
/// `result` members were looked at).
pub open spec fn body_spec(f: Seq<(String, JsonValue)>) -> Result<ResourcesView, ParseFailure> {
    if member_from(f, "minResourceFee"@) is None && member_from(f, "transactionData"@) is None {
        Err(ParseFailure::UnsupportedResponse(UNSUPPORTED_RESPONSE@))
    } else {
        match member_from(f, "minResourceFee"@) {
            None => Err(ParseFailure::MissingField("minResourceFee"@)),
            Some(mv) => match u64_field(mv, "minResourceFee"@) {
                Err(e) => Err(e),
                Ok(min) => match tx_data_spec(f) {
                    Err(e) => Err(e),
                    Ok((fp, w1)) => {
                        let cost = member_from(f, "cost"@);
                        let cpu_v = match cost {
                            Some(c) => member(c, "cpuInsns"@),
                            None => None,
                        };
                        let mem_v = match cost {
                            Some(c) => member(c, "memBytes"@),
                            None => None,
                        };
                        match opt_u64_field(cpu_v, "cost.cpuInsns"@) {
                            Err(e) => Err(e),
                            Ok(cpu) => match opt_u64_field(mem_v, "cost.memBytes"@) {
                                Err(e) => Err(e),
                                Ok(mem) => {
                                    let w2 = if mem_v is None {
                                        w1.push(WARN_NO_MEM@)
                                    } else {
                                        w1
                                    };
                                    let cpu2 = if cpu is None && fp is Some {
                                        Some(fp->Some_0.instructions as u64)
                                    } else {
                                        cpu
                                    };
                                    let w3 = if cpu is None && fp is Some {
                                        w2.push(WARN_CPU_FROM_TX_DATA@)
                                    } else {
                                        w2
                                    };
                                    match latest_spec(f) {
                                        Err(e) => Err(e),
                                        Ok(latest) => match restore_spec(f) {
                                            Err(e) => Err(e),
                                            Ok(restore) => Ok(
                                                ResourcesView {
                                                    min_resource_fee_stroops: min,
                                                    cpu_instructions: cpu2,
                                                    memory_bytes: mem,
                                                    footprint: fp,
                                                    latest_ledger: latest,
                                                    restore_fee_stroops: restore,
                                                    warnings: if restore is Some {
                                                        w3.push(WARN_RESTORE@)
                                                    } else {
                                                        w3
                                                    },
                                                },
                                            ),
                                        },
                                    }
                                },
                            },
                        }
                    },
                },
            },
        }
    }
}

/// The message of a transport `error` object, "unknown error" without one.
pub open spec fn rpc_message(ef: Seq<(String, JsonValue)>) -> Seq<char> {
    match member_from(ef, "message"@) {
        Some(JsonValue::String(m)) => m@,
        _ => "unknown error"@,
    }
}

/// The resources of a `simulateTransaction` response: a JSON-RPC envelope
/// (whose object `result` is read in turn) or a bare result object. A
/// transport `error` object and a non-empty host `error` string come first.
pub open spec fn resources_spec(v: JsonValue) -> Result<ResourcesView, ParseFailure>
    decreases v,
{
    match v {
        JsonValue::Object(fields) => {
            let f = fields@;
            let rest = match member_index_from(f, "result"@, 0) {
                Some(j) => if 0 <= j < f.len() && f[j].1 is Object {
                    proof {
                        assert(decreases_to!(v => fields));
                        assert(decreases_to!(fields => fields@));
                        assert(decreases_to!(fields@ => fields@[j]));
                        assert(decreases_to!(fields@[j] => fields@[j].1));
                    }
                    resources_spec(f[j].1)
                } else {
                    body_spec(f)
                },
                None => body_spec(f),
            };
            match member_from(f, "error"@) {
                Some(JsonValue::Object(ef)) => Err(ParseFailure::RpcError(rpc_message(ef@))),
                Some(JsonValue::String(m)) => if m@.len() > 0 {
                    Err(ParseFailure::SimulationFailed(m@))
                } else {
                    rest
                },
                _ => rest,
            }
        },
        _ => Err(ParseFailure::NotAnObject),
    }
}


fn member_index(fields: &Vec<(String, JsonValue)>, key: &str) -> (r: Option<usize>)
    ensures
        r is None <==> member_index_from(fields@, key@, 0) is None,
        r matches Some(i) ==> member_index_from(fields@, key@, 0) == Some(i as int) && i
            < fields@.len(),
{
    let mut i: usize = 0;
    while i < fields.len()
        invariant
            i <= fields@.len(),
            member_index_from(fields@, key@, 0) == member_index_from(fields@, key@, i as int),
        decreases fields@.len() - i,
    {
        if str_eq(fields[i].0.as_str(), key) {
            return Some(i);
        }
        i += 1;
    }
    None
}

/// `value.get(key)`.
pub(crate) fn get_member<'a>(v: &'a JsonValue, key: &str) -> (r: Option<&'a JsonValue>)
    ensures
        match member(*v, key@) {
            Some(x) => r matches Some(y) && *y == x,
            None => r is None,
        },
{
    match v {
        JsonValue::Object(fields) => member_of(fields, key),
        _ => None,
    }
}

fn invalid_field(field: &str, reason: &str) -> (r: SimulationResourceError)
    ensures
        failure_of(r) == ParseFailure::InvalidField(field@, reason@),
{
    SimulationResourceError::InvalidField {
        field: to_owned_string(field),
        reason: to_owned_string(reason),
    }
}

/// Accept a `u64` supplied either as a JSON number or as a string of
/// decimal digits; fractions, negatives and other text are errors.
fn parse_u64_field(v: &JsonValue, field: &str) -> (r: Result<u64, SimulationResourceError>)
    ensures
        match u64_field(*v, field@) {
            Ok(n) => r == Ok::<u64, SimulationResourceError>(n),
            Err(e) => r matches Err(x) && failure_of(x) == e,
        },
{
    match v {
        JsonValue::Number(JsonNumber::Unsigned(n)) => Ok(*n),
        JsonValue::Number(JsonNumber::Negative) => Err(
            invalid_field(field, "expected a non-negative integer"),
        ),
        JsonValue::Number(JsonNumber::Other) => Err(
            invalid_field(field, "expected an integer, got a fractional number"),
        ),
        JsonValue::String(s) => {
            let t = trim_str(s.as_str());
            if t.len() == 0 {
                return Err(invalid_field(field, "value is empty"));
            }
            let mut i: usize = 0;
            while i < t.len()
                invariant
                    *v == JsonValue::String(*s),
                    t@ == trim(s@),
                    t@.len() > 0,
                    i <= t@.len(),
                    forall|k: int| 0 <= k < i ==> is_digit(#[trigger] t@[k]),
                decreases t@.len() - i,
            {
                if !('0' <= t[i] && t[i] <= '9') {
                    assert(!is_digit(t@[i as int]));
                    assert(!all_digits(t@));
                    return Err(invalid_field(field, "expected a decimal non-negative integer string"));
                }
                i += 1;
            }
            assert(all_digits(t@));
            assert(crate::text::unsigned_digits(t@) == t@);
            match parse_unsigned(&t, u64::MAX) {
                Some(n) => Ok(n),
                None => Err(invalid_field(field, "value does not fit in u64 stroops")),
            }
        },
        JsonValue::Null => Err(invalid_field(field, "value is null")),
        _ => Err(invalid_field(field, "expected a number or a numeric string")),
    }
}

fn parse_opt_u64(v: Option<&JsonValue>, field: &str) -> (r: Result<Option<u64>, SimulationResourceError>)
    ensures
        match opt_u64_field(
            match v {
                Some(x) => Some(*x),
                None => None,
            },
            field@,
        ) {
            Ok(n) => r == Ok::<Option<u64>, SimulationResourceError>(n),
            Err(e) => r matches Err(x) && failure_of(x) == e,
        },
{
    match v {
        None => Ok(None),
        Some(x) => match parse_u64_field(x, field) {
            Ok(n) => Ok(Some(n)),
            Err(e) => Err(e),
        },
    }
}

/// Decode the base64 `SorobanTransactionData` XDR into a footprint summary.
fn decode_footprint(encoded: &str) -> (r: Result<SimulationFootprint, SimulationResourceError>)
    ensures
        match footprint_of(encoded@) {
            Ok(fp) => r == Ok::<SimulationFootprint, SimulationResourceError>(fp),
            Err(e) => r matches Err(x) && failure_of(x) == e,
        },
{
    let t = string_of(&trim_str(encoded));
    match base64_standard_decode(t.as_str()) {
        Err(m) => {
            let mut reason = to_owned_string("not valid base64: ");
            push_str(&mut reason, m.as_str());
            Err(SimulationResourceError::InvalidField { field: to_owned_string("transactionData"), reason })
        },
        Ok(b) => match read_soroban_footprint(&b) {
            Ok(fp) => Ok(fp),
            Err(m) => {
                let mut reason = to_owned_string("not a valid SorobanTransactionData XDR envelope: ");
                push_str(&mut reason, m.as_str());
                Err(SimulationResourceError::InvalidField { field: to_owned_string("transactionData"), reason })
            },
        },
    }
}

fn push_warning(w: &mut Vec<String>, text: &str)
    ensures
        string_views(final(w)@) == string_views(old(w)@).push(text@),
{
    let s = to_owned_string(text);
    proof {
        lemma_string_views_push(w@, s);
    }
    w.push(s);
}

fn member_of<'a>(fields: &'a Vec<(String, JsonValue)>, key: &str) -> (r: Option<&'a JsonValue>)
    ensures
        match member_from(fields@, key@) {
            Some(x) => r matches Some(y) && *y == x,
            None => r is None,
        },
{
    match member_index(fields, key) {
        Some(i) => {
            assert(member_from(fields@, key@) == Some(fields@[i as int].1));
            Some(&fields[i].1)
        },
        None => None,
    }
}

fn parse_result_body(fields: &Vec<(String, JsonValue)>) -> (r: Result<SimulationResources, SimulationResourceError>)
    ensures
        outcome_view(r) == body_spec(fields@),
{
    let min_v = member_of(fields, "minResourceFee");
    let tx_v = member_of(fields, "transactionData");
    if min_v.is_none() && tx_v.is_none() {
        return Err(SimulationResourceError::UnsupportedResponse(to_owned_string(UNSUPPORTED_RESPONSE)));
    }
    let min = match min_v {
        None => {
            return Err(SimulationResourceError::MissingField(to_owned_string("minResourceFee")));
        },
        Some(v) => match parse_u64_field(v, "minResourceFee") {
            Ok(n) => n,
            Err(e) => {
                return Err(e);
            },
        },
    };
    let mut warnings: Vec<String> = Vec::new();
    assert(string_views(warnings@) =~= Seq::<Seq<char>>::empty());
    let footprint: Option<SimulationFootprint> = match tx_v {
        None => {
            push_warning(&mut warnings, WARN_NO_TX_DATA);
            None
        },
        Some(JsonValue::Null) => {
            push_warning(&mut warnings, WARN_NO_TX_DATA);
            None
        },
        Some(JsonValue::String(enc)) => {
            if chars_of(enc.as_str()).len() == 0 {
                push_warning(&mut warnings, WARN_EMPTY_TX_DATA);
                None
            } else {
                match decode_footprint(enc.as_str()) {
                    Ok(fp) => Some(fp),
                    Err(e) => {
                        return Err(e);
                    },
                }
            }
        },
        Some(_) => {
            return Err(invalid_field("transactionData", "expected a base64-encoded XDR string"));
        },
    };
    assert(tx_data_spec(fields@) == Ok::<(Option<SimulationFootprint>, Seq<Seq<char>>), ParseFailure>(
        (footprint, string_views(warnings@)),
    ));
    let cost = member_of(fields, "cost");
    let cpu_v = match cost {
        Some(c) => get_member(c, "cpuInsns"),
        None => None,
    };
    let mem_v = match cost {
        Some(c) => get_member(c, "memBytes"),
        None => None,
    };
    let cpu = match parse_opt_u64(cpu_v, "cost.cpuInsns") {
        Ok(n) => n,
        Err(e) => {
            return Err(e);
        },
    };
    let mem = match parse_opt_u64(mem_v, "cost.memBytes") {
        Ok(n) => n,
        Err(e) => {
            return Err(e);
        },
    };
    if mem_v.is_none() {
        push_warning(&mut warnings, WARN_NO_MEM);
    }
    let mut cpu_instructions = cpu;
    if cpu.is_none() {
        match &footprint {
            Some(fp) => {
                cpu_instructions = Some(fp.instructions as u64);
                push_warning(&mut warnings, WARN_CPU_FROM_TX_DATA);
            },
            None => {},
        }
    }
    let latest_ledger = match member_of(fields, "latestLedger") {
        None => None,
        Some(v) => match parse_u64_field(v, "latestLedger") {
            Err(e) => {
                return Err(e);
            },
            Ok(x) => {
                if x > 0xffff_ffff {
                    return Err(invalid_field("latestLedger", "value does not fit in a u32 ledger sequence"));
                }
                Some(x as u32)
            },
        },
    };
    let restore_fee_stroops = match member_of(fields, "restorePreamble") {
        None => None,
        Some(JsonValue::Null) => None,
        Some(p) => match get_member(p, "minResourceFee") {
            None => {
                return Err(
                    SimulationResourceError::MissingField(
                        to_owned_string("restorePreamble.minResourceFee"),
                    ),
                );
            },
            Some(fee) => match parse_u64_field(fee, "restorePreamble.minResourceFee") {
                Ok(x) => Some(x),
                Err(e) => {
                    return Err(e);
                },
            },
        },
    };
    if restore_fee_stroops.is_some() {
        push_warning(&mut warnings, WARN_RESTORE);
    }
    Ok(
        SimulationResources {
            min_resource_fee_stroops: min,
            cpu_instructions,
            memory_bytes: mem,
            footprint,
            latest_ledger,
            restore_fee_stroops,
            warnings,
        },
    )
}

/// Parse a `simulateTransaction` response into resources. Both the full
/// JSON-RPC envelope (whose `result` object is read in turn) and a bare
/// result object are accepted; a transport `error` object and a non-empty
/// host `error` string are reported first.
pub fn parse_simulation_resources(value: &JsonValue) -> (r: Result<SimulationResources, SimulationResourceError>)
    ensures
        outcome_view(r) == resources_spec(*value),
    decreases value,
{
    match value {
        JsonValue::Object(fields) => {
            match member_of(fields, "error") {
                Some(JsonValue::Object(ef)) => {
                    let msg = match member_of(ef, "message") {
                        Some(JsonValue::String(m)) => to_owned_string(m.as_str()),
                        _ => to_owned_string("unknown error"),
                    };
                    return Err(SimulationResourceError::RpcError(msg));
                },
                Some(JsonValue::String(m)) => {
                    if chars_of(m.as_str()).len() > 0 {
                        return Err(SimulationResourceError::SimulationFailed(to_owned_string(m.as_str())));
                    }
                },
                _ => {},
            }
            match member_index(fields, "result") {
                Some(j) => {
                    match &fields[j].1 {
                        JsonValue::Object(_) => {
                            proof {
                                assert(decreases_to!(*value => *fields));
                                assert(decreases_to!(*fields => fields@));
                                assert(decreases_to!(fields@ => fields@[j as int]));
                                assert(decreases_to!(fields@[j as int] => fields@[j as int].1));
                            }
                            return parse_simulation_resources(&fields[j].1);
                        },
                        _ => {},
                    }
                },
                None => {},
            }
            parse_result_body(fields)
        },
        _ => Err(SimulationResourceError::NotAnObject),
    }
}

/// What parsing a raw response gives: refused above `MAX_RESPONSE_BYTES`
/// bytes before the JSON parser runs, refused when it is not JSON, and
/// otherwise the resources of the document.
pub open spec fn response_spec(raw: &str) -> Result<ResourcesView, ParseFailure> {
    if raw.len() > MAX_RESPONSE_BYTES {
        Err(ParseFailure::ResponseTooLarge(raw.len(), MAX_RESPONSE_BYTES))
    } else {
        match json_of(raw@) {
            Err(e) => Err(ParseFailure::InvalidField("<document>"@, "not valid JSON: "@ + e)),
            Ok(v) => resources_spec(v),
        }
    }
}

/// Parse a raw JSON document (a JSON-RPC envelope or a bare result object)
/// into resources, refusing inputs above `MAX_RESPONSE_BYTES` before the
/// JSON parser runs.
pub fn parse_simulation_response_str(raw: &str) -> (r: Result<SimulationResources, SimulationResourceError>)
    ensures
        outcome_view(r) == response_spec(raw),
        r matches Err(SimulationResourceError::ResponseTooLarge { .. }) <==> raw.len()
            > MAX_RESPONSE_BYTES,
{
    let n = raw.len();
    if n > MAX_RESPONSE_BYTES {
        return Err(SimulationResourceError::ResponseTooLarge { bytes: n, limit: MAX_RESPONSE_BYTES });
    }
    match json_document(raw) {
        Err(m) => {
            let mut reason = to_owned_string("not valid JSON: ");
            push_str(&mut reason, m.as_str());
            Err(SimulationResourceError::InvalidField { field: to_owned_string("<document>"), reason })
        },
        Ok(v) => {
            let r = parse_simulation_resources(&v);
            proof {
                lemma_no_too_large(v);
                assert(response_spec(raw) == resources_spec(v));
            }
            r
        },
    }
}

proof fn lemma_no_too_large(v: JsonValue)
    ensures
        !(resources_spec(v) matches Err(ParseFailure::ResponseTooLarge(_, _))),
        !(resources_spec(v) matches Err(ParseFailure::Other)),
    decreases v,
{
    match v {
        JsonValue::Object(fields) => {
            let f = fields@;
            match member_index_from(f, "result"@, 0) {
                Some(j) => if 0 <= j < f.len() && f[j].1 is Object {
                    assert(decreases_to!(v => fields));
                    assert(decreases_to!(fields => fields@));
                    assert(decreases_to!(fields@ => fields@[j]));
                    assert(decreases_to!(fields@[j] => fields@[j].1));
                    lemma_no_too_large(f[j].1);
                },
                None => {},
            }
        },
        _ => {},
    }
}

} // verus!
