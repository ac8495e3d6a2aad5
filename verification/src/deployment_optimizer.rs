//! Deployment optimization heuristics: size-based gas and time estimates,
//! optimization suggestions and the worker count for parallel deployment.
//!
//! Sizes are measured in bytes and estimates are computed in exact integer
//! arithmetic, rounded down.

use vstd::prelude::*;
use crate::text::{decimal, decimal_string, push_char, push_str, str_eq, to_owned_string};

verus! {

/// One optimization suggestion.
#[derive(Debug, Clone)]
pub struct OptimizationSuggestion {
    pub id: String,
    pub category: String,
    pub title: String,
    pub description: String,
    pub estimated_gas_savings: u64,
    pub estimated_time_savings_ms: u64,
    pub implementation_effort: String,
    pub priority: String,
    pub code_example: Option<String>,
}

/// Network conditions at deployment time.
#[derive(Debug, Clone)]
pub struct NetworkConditions {
    pub congestion_level: String,
    pub gas_price_trend: String,
    pub recommended_action: String,
}

/// Optimization depth level.
#[derive(Debug, Clone, Copy, PartialEq, Eq, Structural)]
pub enum OptimizationLevel {
    Basic,
    Standard,
    Aggressive,
}

impl OptimizationLevel {
    /// The level's lower-case name.
    pub fn label(&self) -> (r: &'static str)
        ensures
            r == match *self {
                OptimizationLevel::Basic => "basic",
                OptimizationLevel::Standard => "standard",
                OptimizationLevel::Aggressive => "aggressive",
            },
    {
        match self {
            OptimizationLevel::Basic => "basic",
            OptimizationLevel::Standard => "standard",
            OptimizationLevel::Aggressive => "aggressive",
        }
    }
}

/// Deployment optimizer configuration.
#[derive(Debug, Clone)]
pub struct DeploymentOptimizerConfig {
    pub wasm_path: String,
    pub target_networks: Vec<String>,
    pub optimization_level: OptimizationLevel,
    pub enable_cost_optimization: bool,
    pub enable_speed_optimization: bool,
    pub enable_reliability_optimization: bool,
}

/// Gas cost optimizer.
pub struct GasCostOptimizer;

/// Speed optimizer.
pub struct SpeedOptimizer;

/// Reliability optimizer.
pub struct ReliabilityOptimizer;

/// Network selector.
pub struct NetworkSelector;

/// Batch optimizer.
pub struct BatchOptimizer;

/// Scheduling optimizer.
pub struct SchedulingOptimizer;

/// Resource utilization analyzer.
pub struct ResourceAnalyzer;

/// Deployment steps grouped into one batch.
pub const DEFAULT_BATCH_SIZE: usize = 5;

/// Wasm size from which at most two workers upload concurrently (512 KiB).
pub const LARGE_WASM_BYTES: usize = 524_288;

/// Base gas cost of a deployment on a network (per 100 KiB of Wasm).
pub open spec fn gas_base(network: Seq<char>) -> nat {
    if network == "mainnet"@ {
        100_000
    } else if network == "testnet"@ {
        10_000
    } else {
        50_000
    }
}

/// Base deployment time in milliseconds on a network (per 50 KiB of Wasm).
pub open spec fn time_base(network: Seq<char>) -> nat {
    if network == "mainnet"@ {
        5000
    } else if network == "testnet"@ {
        2000
    } else {
        3000
    }
}

/// `v / 10` rounded to the nearest integer, ties to even.
pub open spec fn round_tenths_value(num: nat, den: nat) -> nat
    recommends
        den > 0,
{
    let q = num / den;
    let r = num % den;
    if 2 * r > den || (2 * r == den && q % 2 == 1) {
        q + 1
    } else {
        q
    }
}

/// A size in KiB with one decimal: `bytes / 1024` rounded to tenths.
pub open spec fn kib_one_decimal(bytes: nat) -> Seq<char> {
    let tenths = round_tenths_value(bytes * 10, 1024);
    decimal(tenths / 10) + seq!['.'] + decimal(tenths % 10)
}

/// `bytes / 1024` with one decimal, as `{:.1}` prints it.
fn format_kib(bytes: u64) -> (r: String)
    ensures
        r@ == kib_one_decimal(bytes as nat),
{
    let num = bytes as u128 * 10;
    let q = num / 1024;
    let rem = num % 1024;
    let tenths = if 2 * rem > 1024 || (2 * rem == 1024 && q % 2 == 1) {
        q + 1
    } else {
        q
    };
    assert(tenths / 10 <= u64::MAX);
    let mut s = decimal_string((tenths / 10) as u64);
    push_char(&mut s, '.');
    push_str(&mut s, decimal_string((tenths % 10) as u64).as_str());
    s
}

/// `needle` occurs in `hay`.
pub open spec fn contains_bytes(hay: Seq<u8>, needle: Seq<u8>) -> bool {
    exists|i: int| 0 <= i && i + needle.len() <= hay.len() && #[trigger] hay.subrange(i, i + needle.len()) == needle
}

/// Whether `needle` occurs in `hay`.
fn find_bytes(hay: &[u8], needle: &[u8]) -> (r: bool)
    ensures
        r == contains_bytes(hay@, needle@),
{
    let n = hay.len();
    let m = needle.len();
    if m > n {
        assert(!contains_bytes(hay@, needle@));
        return false;
    }
    let mut i: usize = 0;
    while i <= n - m
        invariant
            n == hay@.len(),
            m == needle@.len(),
            m <= n,
            i <= n - m + 1,
            forall|j: int| 0 <= j < i ==> #[trigger] hay@.subrange(j, j + m) != needle@,
        decreases n - i,
    {
        let mut k: usize = 0;
        let mut same = true;
        while k < m
            invariant
                n == hay@.len(),
                m == needle@.len(),
                i + m <= n,
                k <= m,
                same == forall|b: int| 0 <= b < k ==> hay@[i + b] == needle@[b],
            decreases m - k,
        {
            if hay[i + k] != needle[k] {
                same = false;
            }
            k += 1;
        }
        if same {
            assert(hay@.subrange(i as int, i + m) =~= needle@);
            return true;
        }
        assert(hay@.subrange(i as int, i + m) != needle@) by {
            let b = choose|b: int| 0 <= b < m && hay@[i + b] != needle@[b];
            assert(hay@.subrange(i as int, i + m)[b] == hay@[i + b]);
        }
        i += 1;
    }
    assert(!contains_bytes(hay@, needle@)) by {
        if contains_bytes(hay@, needle@) {
            let j = choose|j: int|
                0 <= j && j + m <= n && #[trigger] hay@.subrange(j, j + m) == needle@;
            assert(j < i);
        }
    }
    false
}

/// A suggestion as plain values.
pub struct SuggestionFields {
    pub id: Seq<char>,
    pub category: Seq<char>,
    pub title: Seq<char>,
    pub description: Seq<char>,
    pub gas: u64,
    pub time_ms: u64,
    pub effort: Seq<char>,
    pub priority: Seq<char>,
    pub code_example: Option<Seq<char>>,
}

/// Every field of a suggestion.
pub open spec fn suggestion_key(s: OptimizationSuggestion) -> SuggestionFields {
    SuggestionFields {
        id: s.id@,
        category: s.category@,
        title: s.title@,
        description: s.description@,
        gas: s.estimated_gas_savings,
        time_ms: s.estimated_time_savings_ms,
        effort: s.implementation_effort@,
        priority: s.priority@,
        code_example: match s.code_example {
            Some(e) => Some(e@),
            None => None,
        },
    }
}

/// The fields of a suggestion with a code example.
pub open spec fn fields(
    id: Seq<char>,
    category: Seq<char>,
    title: Seq<char>,
    description: Seq<char>,
    gas: u64,
    time_ms: u64,
    effort: Seq<char>,
    priority: Seq<char>,
    example: Seq<char>,
) -> SuggestionFields {
    SuggestionFields { id, category, title, description, gas, time_ms, effort, priority, code_example: Some(example) }
}

fn suggestion(
    id: &str,
    category: &str,
    title: &str,
    description: String,
    gas: u64,
    time_ms: u64,
    effort: &str,
    priority: &str,
    example: &str,
) -> (r: OptimizationSuggestion)
    ensures
        r.id@ == id@,
        r.category@ == category@,
        r.title@ == title@,
        r.description@ == description@,
        r.estimated_gas_savings == gas,
        r.estimated_time_savings_ms == time_ms,
        r.implementation_effort@ == effort@,
        r.priority@ == priority@,
        r.code_example matches Some(e) && e@ == example@,
{
    OptimizationSuggestion {
        id: to_owned_string(id),
        category: to_owned_string(category),
        title: to_owned_string(title),
        description,
        estimated_gas_savings: gas,
        estimated_time_savings_ms: time_ms,
        implementation_effort: to_owned_string(effort),
        priority: to_owned_string(priority),
        code_example: Some(to_owned_string(example)),
    }
}

/// The suggestions of the gas analysis: `GAS-001` for Wasm above 100 KiB
/// (saving 1000 per KiB above the threshold) and `GAS-002` when the bytes
/// mention `panic` or `unwrap`.
pub open spec fn gas_suggestions_spec(wasm: Seq<u8>) -> Seq<SuggestionFields> {
    let len = wasm.len();
    let large = if len > 102_400 {
        seq![
            fields(
                "GAS-001"@,
                "wasm_size"@,
                "Reduce WASM Size"@,
                "WASM is "@ + kib_one_decimal(len) + " KB, consider optimizing to reduce gas costs"@,
                (len * 1000 / 1024 - 100_000) as u64,
                500u64,
                "1-2 hours"@,
                "high"@,
                "Use soroban-optimize or remove unused dependencies"@,
            ),
        ]
    } else {
        Seq::empty()
    };
    let panicky = if contains_bytes(wasm, "panic"@.map_values(|c: char| c as u8)) || contains_bytes(
        wasm,
        "unwrap"@.map_values(|c: char| c as u8),
    ) {
        seq![
            fields(
                "GAS-002"@,
                "error_handling"@,
                "Optimize Error Handling"@,
                "Panic/unwrap patterns increase gas costs on errors"@,
                5000u64,
                100u64,
                "30 minutes"@,
                "medium"@,
                "Replace .unwrap() with proper error handling using ?"@,
            ),
        ]
    } else {
        Seq::empty()
    };
    large + panicky
}

/// The suggestion of the speed analysis: `SPEED-001` for Wasm above 50 KiB,
/// saving 100 ms per KiB above the threshold.
pub open spec fn speed_suggestions_spec(wasm: Seq<u8>) -> Seq<SuggestionFields> {
    let len = wasm.len();
    if len > 51_200 {
        seq![
            fields(
                "SPEED-001"@,
                "upload_time"@,
                "Optimize Upload Speed"@,
                "WASM size "@ + kib_one_decimal(len) + " KB affects upload time"@,
                0u64,
                (len * 100 / 1024 - 5000) as u64,
                "30 minutes"@,
                "medium"@,
                "Use compression or soroban-optimize"@,
            ),
        ]
    } else {
        Seq::empty()
    }
}

/// The keys of a list of suggestions.
pub open spec fn suggestion_keys(v: Seq<OptimizationSuggestion>) -> Seq<SuggestionFields> {
    v.map_values(|s: OptimizationSuggestion| suggestion_key(s))
}

impl GasCostOptimizer {
    /// Suggestions that lower the gas cost of a deployment.
    pub fn analyze_gas_optimization(wasm_bytes: &[u8]) -> (r: Vec<OptimizationSuggestion>)
        ensures
            suggestion_keys(r@) == gas_suggestions_spec(wasm_bytes@),
    {
        let mut suggestions: Vec<OptimizationSuggestion> = Vec::new();
        let len = wasm_bytes.len() as u64;
        assert(len == wasm_bytes@.len());
        if len > 102_400 {
            let mut d = to_owned_string("WASM is ");
            push_str(&mut d, format_kib(len).as_str());
            push_str(&mut d, " KB, consider optimizing to reduce gas costs");
            suggestions.push(
                suggestion(
                    "GAS-001",
                    "wasm_size",
                    "Reduce WASM Size",
                    d,
                    (len as u128 * 1000 / 1024 - 100_000) as u64,
                    500,
                    "1-2 hours",
                    "high",
                    "Use soroban-optimize or remove unused dependencies",
                ),
            );
        }
        let ghost first = suggestions@;
        let panic_word: Vec<u8> = vec![0x70, 0x61, 0x6e, 0x69, 0x63];
        let unwrap_word: Vec<u8> = vec![0x75, 0x6e, 0x77, 0x72, 0x61, 0x70];
        proof {
            reveal_strlit("panic");
            reveal_strlit("unwrap");
            assert(panic_word@ =~= "panic"@.map_values(|c: char| c as u8));
            assert(unwrap_word@ =~= "unwrap"@.map_values(|c: char| c as u8));
        }
        if find_bytes(wasm_bytes, &panic_word) || find_bytes(wasm_bytes, &unwrap_word) {
            suggestions.push(
                suggestion(
                    "GAS-002",
                    "error_handling",
                    "Optimize Error Handling",
                    to_owned_string("Panic/unwrap patterns increase gas costs on errors"),
                    5000,
                    100,
                    "30 minutes",
                    "medium",
                    "Replace .unwrap() with proper error handling using ?",
                ),
            );
        }
        assert(suggestion_keys(suggestions@) =~= gas_suggestions_spec(wasm_bytes@));
        suggestions
    }

    /// Estimated gas cost of deploying `wasm_bytes` on `network`: the
    /// network's base cost per 100 KiB, rounded down. This is the exact ratio;
    /// the same estimate taken in `f64` (KiB / 100, times the base, truncated)
    /// can come out one lower when the quotient is not a binary fraction, for
    /// example 1424 rather than 1425 for 14,592 bytes on testnet.
    pub fn estimate_gas_cost(wasm_bytes: &[u8], network: &str) -> (r: u64)
        ensures
            r == gas_base(network@) * wasm_bytes@.len() / 102_400,
    {
        let base: u64 = if str_eq(network, "mainnet") {
            100_000
        } else if str_eq(network, "testnet") {
            10_000
        } else {
            50_000
        };
        let len = wasm_bytes.len() as u128;
        let cost = base as u128 * len / 102_400;
        assert(cost <= len) by (nonlinear_arith)
            requires
                base <= 100_000,
                cost == base * len / 102_400,
        ;
        cost as u64
    }
}

impl SpeedOptimizer {
    /// Suggestions that shorten a deployment.
    pub fn analyze_speed_optimization(wasm_bytes: &[u8]) -> (r: Vec<OptimizationSuggestion>)
        ensures
            suggestion_keys(r@) == speed_suggestions_spec(wasm_bytes@),
    {
        let mut suggestions: Vec<OptimizationSuggestion> = Vec::new();
        let len = wasm_bytes.len() as u64;
        assert(len == wasm_bytes@.len());
        if len > 51_200 {
            let mut d = to_owned_string("WASM size ");
            push_str(&mut d, format_kib(len).as_str());
            push_str(&mut d, " KB affects upload time");
            suggestions.push(
                suggestion(
                    "SPEED-001",
                    "upload_time",
                    "Optimize Upload Speed",
                    d,
                    0,
                    (len as u128 * 100 / 1024 - 5000) as u64,
                    "30 minutes",
                    "medium",
                    "Use compression or soroban-optimize",
                ),
            );
        }
        assert(suggestion_keys(suggestions@) =~= speed_suggestions_spec(wasm_bytes@));
        suggestions
    }

    /// Estimated deployment time in milliseconds: the network's base time
    /// per 50 KiB, rounded down. This is the exact ratio; the same estimate
    /// taken in `f64` (KiB / 50, times the base, truncated) can come out one
    /// lower when the quotient is not a binary fraction, for example 1004
    /// rather than 1005 for 25,728 bytes on testnet.
    pub fn estimate_deployment_time(wasm_bytes: &[u8], network: &str) -> (r: u64)
        ensures
            r == time_base(network@) * wasm_bytes@.len() / 51_200,
    {
        let base: u64 = if str_eq(network, "mainnet") {
            5000
        } else if str_eq(network, "testnet") {
            2000
        } else {
            3000
        };
        let len = wasm_bytes.len() as u128;
        let time = base as u128 * len / 51_200;
        assert(time <= len) by (nonlinear_arith)
            requires
                base <= 5000,
                time == base * len / 51_200,
        ;
        time as u64
    }
}

/// The two reliability suggestions, both of high priority and saving neither
/// gas nor time.
pub open spec fn reliability_suggestions_spec() -> Seq<SuggestionFields> {
    seq![
        fields(
            "REL-001"@,
            "retry_logic"@,
            "Add Retry Logic"@,
            "Implement exponential backoff for network failures"@,
            0u64,
            0u64,
            "1 hour"@,
            "high"@,
            "Implement retry with exponential backoff: 100ms, 200ms, 400ms, 800ms"@,
        ),
        fields(
            "REL-002"@,
            "pre_deployment_checks"@,
            "Add Pre-deployment Validation"@,
            "Validate WASM and network conditions before deployment"@,
            0u64,
            0u64,
            "2 hours"@,
            "high"@,
            "Run validation checks: WASM integrity, network connectivity, wallet balance"@,
        ),
    ]
}

impl ReliabilityOptimizer {
    /// The two reliability suggestions every deployment gets: retries with
    /// backoff (`REL-001`) and pre-deployment validation (`REL-002`).
    pub fn analyze_reliability_optimization() -> (r: Vec<OptimizationSuggestion>)
        ensures
            suggestion_keys(r@) == reliability_suggestions_spec(),
    {
        let r = vec![
            suggestion(
                "REL-001",
                "retry_logic",
                "Add Retry Logic",
                to_owned_string("Implement exponential backoff for network failures"),
                0,
                0,
                "1 hour",
                "high",
                "Implement retry with exponential backoff: 100ms, 200ms, 400ms, 800ms",
            ),
            suggestion(
                "REL-002",
                "pre_deployment_checks",
                "Add Pre-deployment Validation",
                to_owned_string("Validate WASM and network conditions before deployment"),
                0,
                0,
                "2 hours",
                "high",
                "Run validation checks: WASM integrity, network connectivity, wallet balance",
            ),
        ];
        assert(suggestion_keys(r@) =~= reliability_suggestions_spec());
        r
    }
}

/// The worker count for deploying `contract_count` contracts: the batch size,
/// bounded by the host's parallelism, by two for Wasm of 512 KiB or more,
/// and by the number of contracts, and never below one.
pub open spec fn concurrency_spec(contract_count: nat, wasm_len: nat, host: nat) -> nat {
    let size_cap: nat = if wasm_len >= LARGE_WASM_BYTES {
        2
    } else {
        usize::MAX as nat
    };
    let a = if host < DEFAULT_BATCH_SIZE {
        host
    } else {
        DEFAULT_BATCH_SIZE as nat
    };
    let candidate = if size_cap < a {
        size_cap
    } else {
        a
    };
    let upper = if contract_count < 1 {
        1
    } else {
        contract_count
    };
    if candidate < 1 {
        1
    } else if candidate > upper {
        upper
    } else {
        candidate
    }
}

impl BatchOptimizer {
    /// Recommended worker count for parallel deployment.
    pub fn recommend_concurrency(
        contract_count: usize,
        wasm_bytes: &[u8],
        host_parallelism: usize,
    ) -> (r: usize)
        ensures
            r == concurrency_spec(contract_count as nat, wasm_bytes@.len(), host_parallelism as nat),
            1 <= r,
            r <= contract_count || r == 1,
    {
        let batch = DEFAULT_BATCH_SIZE;
        let size_cap = if wasm_bytes.len() >= LARGE_WASM_BYTES {
            2
        } else {
            usize::MAX
        };
        let a = if host_parallelism < batch {
            host_parallelism
        } else {
            batch
        };
        let candidate = if size_cap < a {
            size_cap
        } else {
            a
        };
        let upper = if contract_count < 1 {
            1
        } else {
            contract_count
        };
        if candidate < 1 {
            1
        } else if candidate > upper {
            upper
        } else {
            candidate
        }
    }
}

/// The recommended worker count never exceeds the number of contracts (for
/// a non-empty deployment) and is at least one.
pub proof fn law_concurrency_is_bounded(contract_count: nat, wasm_len: nat, host: nat)
    ensures
        1 <= concurrency_spec(contract_count, wasm_len, host),
        contract_count >= 1 ==> concurrency_spec(contract_count, wasm_len, host) <= contract_count,
        concurrency_spec(contract_count, wasm_len, host) <= DEFAULT_BATCH_SIZE,
        wasm_len >= LARGE_WASM_BYTES ==> concurrency_spec(contract_count, wasm_len, host) <= 2,
{
}

} // verus!
