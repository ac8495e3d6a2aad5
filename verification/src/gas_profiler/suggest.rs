//! Optimization suggestions: severities, evidence basis, scoring and the
//! static per-function rules.
//!
//! Every suggestion is backed by a concrete observation in the profile and
//! carries it as `evidence`, plus a `basis` saying how it was established
//! (`certain`, `measured` or `static`).

use vstd::prelude::*;
use crate::gas_profiler::host_fns::HostCategory;
use crate::gas_profiler::{category_sum, sat, ContractFunctionProfile};
use crate::gas_profiler::summary::{section_views, ModuleSummary};
use crate::gas_profiler::wasm::{is_metadata_name, is_soroban_metadata_section};
use crate::gas_profiler::fees::{upload_savings, upload_savings_spec, FeeSchedule};
use crate::text::{
    lemma_seq_lt_asym, lemma_seq_lt_total, lemma_seq_lt_trans, seq_lt, str_lt, ascii_lower_seq, ascii_lowercase, chars_of, decimal, decimal_string, eq_str, join, join_spec,
    push_str, string_of, string_views, to_owned_string,
};

verus! {

/// Severity of a finding, most severe first.
#[derive(Debug, Clone, Copy, PartialEq, Eq, Hash, Structural)]
pub enum FindingSeverity {
    Critical,
    High,
    Medium,
    Low,
    Info,
}

/// Rank of a severity: 0 for the most severe.
pub open spec fn severity_rank_spec(s: FindingSeverity) -> int {
    match s {
        FindingSeverity::Critical => 0,
        FindingSeverity::High => 1,
        FindingSeverity::Medium => 2,
        FindingSeverity::Low => 3,
        FindingSeverity::Info => 4,
    }
}

/// The lower-case name of a severity.
pub open spec fn severity_name(s: FindingSeverity) -> Seq<char> {
    match s {
        FindingSeverity::Critical => "critical"@,
        FindingSeverity::High => "high"@,
        FindingSeverity::Medium => "medium"@,
        FindingSeverity::Low => "low"@,
        FindingSeverity::Info => "info"@,
    }
}

/// The upper-case name of a severity.
pub open spec fn severity_upper(s: FindingSeverity) -> Seq<char> {
    match s {
        FindingSeverity::Critical => "CRITICAL"@,
        FindingSeverity::High => "HIGH"@,
        FindingSeverity::Medium => "MEDIUM"@,
        FindingSeverity::Low => "LOW"@,
        FindingSeverity::Info => "INFO"@,
    }
}

/// Score penalty of one finding.
pub open spec fn penalty_spec(s: FindingSeverity) -> int {
    match s {
        FindingSeverity::Critical => 30,
        FindingSeverity::High => 20,
        FindingSeverity::Medium => 10,
        FindingSeverity::Low => 4,
        FindingSeverity::Info => 1,
    }
}

impl FindingSeverity {
    /// Rank: 0 for critical up to 4 for info.
    pub fn rank(&self) -> (r: u8)
        ensures
            r == severity_rank_spec(*self),
    {
        match self {
            FindingSeverity::Critical => 0,
            FindingSeverity::High => 1,
            FindingSeverity::Medium => 2,
            FindingSeverity::Low => 3,
            FindingSeverity::Info => 4,
        }
    }

    /// The lower-case name (`critical`, `high`, ...).
    pub fn label(&self) -> (r: &'static str)
        ensures
            r@ == severity_name(*self),
    {
        match self {
            FindingSeverity::Critical => "critical",
            FindingSeverity::High => "high",
            FindingSeverity::Medium => "medium",
            FindingSeverity::Low => "low",
            FindingSeverity::Info => "info",
        }
    }

    /// The upper-case name (`CRITICAL`, `HIGH`, ...).
    pub fn upper_label(&self) -> (r: &'static str)
        ensures
            r@ == severity_upper(*self),
    {
        match self {
            FindingSeverity::Critical => "CRITICAL",
            FindingSeverity::High => "HIGH",
            FindingSeverity::Medium => "MEDIUM",
            FindingSeverity::Low => "LOW",
            FindingSeverity::Info => "INFO",
        }
    }
}

/// The severity a (lower-cased) word names.
pub open spec fn severity_of_word(w: Seq<char>) -> Option<FindingSeverity> {
    if w == "critical"@ {
        Some(FindingSeverity::Critical)
    } else if w == "high"@ {
        Some(FindingSeverity::High)
    } else if w == "medium"@ {
        Some(FindingSeverity::Medium)
    } else if w == "low"@ {
        Some(FindingSeverity::Low)
    } else if w == "info"@ {
        Some(FindingSeverity::Info)
    } else {
        None
    }
}

/// Parses a `--min-severity` value, ignoring ASCII case.
pub fn parse_severity(s: &str) -> (r: Result<FindingSeverity, String>)
    ensures
        match severity_of_word(ascii_lower_seq(s@)) {
            Some(v) => r == Ok::<FindingSeverity, String>(v),
            None => r matches Err(m) && m@ == "unknown severity '"@ + ascii_lower_seq(s@)
                + "': use critical, high, medium, low or info"@,
        },
{
    let c = chars_of(s);
    let w = ascii_lowercase(&c);
    if eq_str(&w, "critical") {
        Ok(FindingSeverity::Critical)
    } else if eq_str(&w, "high") {
        Ok(FindingSeverity::High)
    } else if eq_str(&w, "medium") {
        Ok(FindingSeverity::Medium)
    } else if eq_str(&w, "low") {
        Ok(FindingSeverity::Low)
    } else if eq_str(&w, "info") {
        Ok(FindingSeverity::Info)
    } else {
        let mut m = to_owned_string("unknown severity '");
        push_str(&mut m, string_of(&w).as_str());
        push_str(&mut m, "': use critical, high, medium, low or info");
        Err(m)
    }
}

/// True when `s` is at least as severe as `min`.
pub fn at_least(s: &FindingSeverity, min: &FindingSeverity) -> (r: bool)
    ensures
        r == (severity_rank_spec(*s) <= severity_rank_spec(*min)),
{
    s.rank() <= min.rank()
}

/// How a suggestion was established.
#[derive(Debug, Clone, Copy, PartialEq, Eq, Structural)]
pub enum Basis {
    /// A structural fact the network enforces, or exact fee arithmetic.
    Certain,
    /// Derived from simulated or measured resource usage.
    Measured,
    /// Derived from static analysis of reachable code.
    Static,
}

/// The lower-case name of a basis.
pub open spec fn basis_name(b: Basis) -> Seq<char> {
    match b {
        Basis::Certain => "certain"@,
        Basis::Measured => "measured"@,
        Basis::Static => "static"@,
    }
}

impl Basis {
    /// The lower-case name (`certain`, `measured`, `static`).
    pub fn label(&self) -> (r: &'static str)
        ensures
            r@ == basis_name(*self),
    {
        match self {
            Basis::Certain => "certain",
            Basis::Measured => "measured",
            Basis::Static => "static",
        }
    }
}

/// One optimization suggestion.
#[derive(Debug, Clone, PartialEq, Eq)]
pub struct Suggestion {
    pub id: String,
    pub severity: FindingSeverity,
    /// `compatibility`, `size`, `storage`, `cpu`, `events`, `auth`,
    /// `cross-contract`, `limits`, `fees`, `accuracy`.
    pub category: String,
    /// Contract function the suggestion applies to, when specific.
    pub function: Option<String>,
    pub title: String,
    pub evidence: String,
    pub recommendation: String,
    pub basis: Basis,
    /// Savings in stroops when the fee model gives them exactly.
    pub estimated_savings_stroops: Option<u64>,
}

/// Sum of the score penalties of `s`.
pub open spec fn penalty_sum(s: Seq<Suggestion>) -> int
    decreases s.len(),
{
    if s.len() == 0 {
        0
    } else {
        penalty_sum(s.drop_last()) + penalty_spec(s.last().severity)
    }
}

/// 0–100 score: 100 minus the penalties, never below 0.
pub open spec fn score_spec(s: Seq<Suggestion>) -> int {
    if penalty_sum(s) >= 100 {
        0
    } else {
        100 - penalty_sum(s)
    }
}

/// The score starts at 100, and each suggestion takes off its severity's
/// penalty (critical 30, high 20, medium 10, low 4, info 1), never going
/// below 0.
pub proof fn law_score_penalties(s: Seq<Suggestion>, x: Suggestion)
    ensures
        score_spec(Seq::<Suggestion>::empty()) == 100,
        0 <= score_spec(s) <= 100,
        score_spec(s.push(x)) == ({
            let p: int = match x.severity {
                FindingSeverity::Critical => 30,
                FindingSeverity::High => 20,
                FindingSeverity::Medium => 10,
                FindingSeverity::Low => 4,
                FindingSeverity::Info => 1,
            };
            if score_spec(s) >= p {
                score_spec(s) - p
            } else {
                0
            }
        }),
{
    lemma_penalty_sum_nonneg(s);
    assert(s.push(x).drop_last() =~= s);
}

proof fn lemma_penalty_sum_nonneg(s: Seq<Suggestion>)
    ensures
        penalty_sum(s) >= 0,
    decreases s.len(),
{
    if s.len() > 0 {
        lemma_penalty_sum_nonneg(s.drop_last());
    }
}

/// 0–100 score: critical costs 30, high 20, medium 10, low 4, info 1.
pub fn score(suggestions: &[Suggestion]) -> (r: u8)
    ensures
        r == score_spec(suggestions@),
{
    let mut penalty: u32 = 0;
    let mut i: usize = 0;
    while i < suggestions.len()
        invariant
            i <= suggestions@.len(),
            penalty == (if penalty_sum(suggestions@.take(i as int)) >= 100 {
                100
            } else {
                penalty_sum(suggestions@.take(i as int))
            }),
            penalty_sum(suggestions@.take(i as int)) >= 0,
        decreases suggestions@.len() - i,
    {
        assert(suggestions@.take(i + 1).drop_last() =~= suggestions@.take(i as int));
        let p: u32 = match suggestions[i].severity {
            FindingSeverity::Critical => 30,
            FindingSeverity::High => 20,
            FindingSeverity::Medium => 10,
            FindingSeverity::Low => 4,
            FindingSeverity::Info => 1,
        };
        penalty = penalty + p;
        if penalty > 100 {
            penalty = 100;
        }
        i += 1;
    }
    assert(suggestions@.take(i as int) =~= suggestions@);
    (100 - penalty) as u8
}

/// A suggestion as plain values: id, severity, category, function, title,
/// evidence, recommendation, basis and estimated savings.
pub type SuggestionView = (
    Seq<char>,
    FindingSeverity,
    Seq<char>,
    Option<Seq<char>>,
    Seq<char>,
    Seq<char>,
    Seq<char>,
    Basis,
    Option<u64>,
);

/// The plain values of a suggestion.
pub open spec fn suggestion_view(s: Suggestion) -> SuggestionView {
    (
        s.id@,
        s.severity,
        s.category@,
        match s.function {
            Some(f) => Some(f@),
            None => None,
        },
        s.title@,
        s.evidence@,
        s.recommendation@,
        s.basis,
        s.estimated_savings_stroops,
    )
}

/// The plain values of a list of suggestions.
pub open spec fn suggestion_views(s: Seq<Suggestion>) -> Seq<SuggestionView> {
    s.map_values(|x: Suggestion| suggestion_view(x))
}

/// Views after a push.
proof fn lemma_suggestion_views_push(s: Seq<Suggestion>, x: Suggestion)
    ensures
        suggestion_views(s.push(x)) == suggestion_views(s).push(suggestion_view(x)),
{
    assert(suggestion_views(s.push(x)) =~= suggestion_views(s).push(suggestion_view(x)));
}

/// Builds a suggestion.
pub(crate) fn make_suggestion(
    id: &str,
    severity: FindingSeverity,
    category: &str,
    function: Option<&str>,
    title: String,
    evidence: String,
    recommendation: &str,
    basis: Basis,
    savings: Option<u64>,
) -> (r: Suggestion)
    ensures
        suggestion_view(r) == (
            id@,
            severity,
            category@,
            match function {
                Some(f) => Some(f@),
                None => None::<Seq<char>>,
            },
            title@,
            evidence@,
            recommendation@,
            basis,
            savings,
        ),
{
    Suggestion {
        id: to_owned_string(id),
        severity,
        category: to_owned_string(category),
        function: match function {
            Some(f) => Some(to_owned_string(f)),
            None => None,
        },
        title,
        evidence,
        recommendation: to_owned_string(recommendation),
        basis,
        estimated_savings_stroops: savings,
    }
}

/// Appends a suggestion to `out`.
pub(crate) fn push_view(out: &mut Vec<Suggestion>, s: Suggestion)
    ensures
        suggestion_views(final(out)@) == suggestion_views(old(out)@).push(suggestion_view(s)),
{
    let ghost before = out@;
    out.push(s);
    proof {
        lemma_suggestion_views_push(before, s);
    }
}

/// `a + b + c` as one string.
pub(crate) fn concat3(a: &str, b: &str, c: &str) -> (r: String)
    ensures
        r@ == a@ + b@ + c@,
{
    let mut r = to_owned_string(a);
    push_str(&mut r, b);
    push_str(&mut r, c);
    r
}

/// `decimal(n) + mid + extra` as one string.
fn count_text(n: u64, mid: &str, extra: &str) -> (r: String)
    ensures
        r@ == decimal(n as nat) + mid@ + extra@,
{
    let d = decimal_string(n);
    concat3(d.as_str(), mid, extra)
}

pub const REC_START: &'static str = "Soroban's VM rejects modules with a start function, so this contract cannot be \
             uploaded. Move initialization into an explicit contract function (or a \
             `__constructor` on protocol 22+).";
pub const REC_FLOAT: &'static str = "Soroban's VM is configured without floating point. Replace f32/f64 with \
                 integer or fixed-point arithmetic (e.g. i128 scaled by 10^7) and check that \
                 no dependency pulls float formatting in.";
pub const REC_PROPOSAL: &'static str = "Soroban's VM does not enable this Wasm proposal. Build with the stable \
                 `wasm32-unknown-unknown` target (or `wasm32v1-none`) through `stellar \
                 contract build` and avoid `-C target-feature` flags that enable it.";
pub const REC_UNKNOWN_IMPORTS: &'static str = "Instantiation fails when an import cannot be linked to the host. This usually \
             means a std/`wasm-bindgen`/libc dependency leaked into the contract; build with \
             `#![no_std]` and `soroban-sdk` only.";
pub const REC_ENV_META: &'static str = "The host refuses contracts without an interface-version meta section. Build \
             with `soroban-sdk` (it embeds the section) and make sure your optimizer or \
             strip step keeps `contractenvmetav0`, `contractmetav0` and `contractspecv0`.";
pub const REC_STRIP: &'static str = "Run `stellar contract optimize` (or `wasm-opt --strip-debug --strip-producers`) \
             and set `strip = \"symbols\"` / `debug = 0` in `[profile.release]`. Keep \
             `contractspecv0`, `contractmetav0` and `contractenvmetav0`.";
pub const REC_DEBUG_LOG: &'static str = "`soroban_sdk::log!` only emits code when `debug_assertions` is on, so this \
             usually means a debug build is being profiled or deployed. Build with \
             `stellar contract build` (release profile) before measuring or deploying.";
pub const REC_READ_LOOP: &'static str = "Every distinct key read is a footprint read entry (plus its bytes), and each \
                 call deserializes the entry again. Read once before the loop, or keep the \
                 collection under a single key (a `Vec`/`Map`) instead of one key per item.";
pub const REC_WRITE_LOOP: &'static str = "Writes are the most expensive resource: each distinct key is a write entry \
                 (also charged as a read) plus write bytes, and the per-transaction write-entry \
                 limit caps how many iterations can succeed. Accumulate in memory and write \
                 once after the loop.";
pub const REC_XCALL_LOOP: &'static str = "Each cross-contract call instantiates the callee's VM and adds its footprint. \
                 Prefer a batch entry point on the callee (one call with a Vec of inputs).";
pub const REC_CRYPTO_LOOP: &'static str = "Hashing and signature checks are metered per byte/operation and dominate CPU \
                 when repeated. Hash a concatenated buffer once, or verify an aggregate.";
pub const REC_EVENT_LOOP: &'static str = "Event bytes are charged per KB and capped per transaction. Emit one summary \
                 event after the loop (e.g. with a Vec payload) instead of one per item.";
pub const REC_AUTH_LOOP: &'static str = "Authorizing the same address repeatedly adds host work and auth entries. \
                 Call `require_auth` once per address before the loop.";
pub const REC_TTL_LOOP: &'static str = "Each extension touches the entry and pays rent. Extend once per entry, and \
                 use thresholds so entries are only bumped when close to expiry.";
pub const REC_MANY_WRITES: &'static str = "If these fields are always updated together, store them as one \
                 `#[contracttype]` struct under one key to pay for one entry instead of many.";
pub const REC_NESTED_LOOPS: &'static str = "CPU grows with the product of loop bounds. Bound input sizes, precompute \
                 lookups (e.g. a Map instead of a nested search), or move work off-chain.";
pub const REC_SERDE_LOOP: &'static str = "Serialize the whole collection once rather than element by element.";
pub const REC_DYNAMIC_DISPATCH: &'static str = "Static host-call counts for this function are a lower bound. Add a \
                 simulation (`--sim`) to profile its real cost.";

/// Loop call sites of category `c` in the profile `f` (saturated).
pub open spec fn loop_count(f: ContractFunctionProfile, c: HostCategory) -> int {
    sat(category_sum(f.import_categories@, f.import_calls_in_loops@, c), u32::MAX as int)
}

/// All call sites of category `c` in the profile `f` (saturated).
pub open spec fn site_count(f: ContractFunctionProfile, c: HostCategory) -> int {
    sat(category_sum(f.import_categories@, f.import_calls@, c), u32::MAX as int)
}

/// Loop call sites of the host function labelled `w`, summed over the
/// first imports of `labels`, saturating.
pub open spec fn label_total(labels: Seq<Seq<char>>, counts: Seq<u32>, w: Seq<char>) -> int
    decreases counts.len(),
{
    if counts.len() == 0 {
        0
    } else {
        let k = counts.len() - 1;
        let rest = label_total(labels, counts.drop_last(), w);
        let add = if k < labels.len() && labels[k] == w {
            counts[k] as int
        } else {
            0
        };
        sat(rest + add, u32::MAX as int)
    }
}

/// `name xN` for a host function called `n` times, or nothing.
pub open spec fn name_count_part(w: Seq<char>, n: int) -> Seq<Seq<char>> {
    if n > 0 {
        seq![w + " x"@ + decimal(n as nat)]
    } else {
        Seq::empty()
    }
}

/// The loop call counts of the host functions `w1` and `w2` (in that
/// order, `w1` sorting first) that occur, as `name xN` joined by commas.
pub open spec fn names_in_spec(f: ContractFunctionProfile, w1: Seq<char>, w2: Seq<char>) -> Seq<char> {
    let labels = string_views(f.import_labels@);
    let counts = f.import_calls_in_loops@;
    join_spec(
        name_count_part(w1, label_total(labels, counts, w1)) + name_count_part(
            w2,
            label_total(labels, counts, w2),
        ),
        ", "@,
    )
}

/// Loop call sites of the host function labelled `w`.
pub(crate) fn label_count(labels: &Vec<String>, counts: &Vec<u32>, w: &str) -> (r: u32)
    ensures
        r == label_total(string_views(labels@), counts@, w@),
{
    let mut acc: u32 = 0;
    let mut k: usize = 0;
    while k < counts.len()
        invariant
            k <= counts@.len(),
            acc == label_total(string_views(labels@), counts@.take(k as int), w@),
        decreases counts@.len() - k,
    {
        assert(counts@.take(k + 1).drop_last() =~= counts@.take(k as int));
        if k < labels.len() && crate::text::str_eq(labels[k].as_str(), w) {
            acc = acc.saturating_add(counts[k]);
        } else {
            assert(k < labels@.len() ==> string_views(labels@)[k as int] == labels@[k as int]@);
        }
        k += 1;
    }
    assert(counts@.take(k as int) =~= counts@);
    acc
}

/// Pushes `name xN` when `n > 0`.
fn push_name_count(parts: &mut Vec<String>, w: &str, n: u32)
    ensures
        string_views(final(parts)@) == string_views(old(parts)@) + name_count_part(w@, n as int),
{
    if n > 0 {
        let t = decimal_string(n as u64);
        let item = concat3(w, " x", t.as_str());
        let ghost before = parts@;
        parts.push(item);
        proof {
            crate::text::lemma_string_views_push(before, item);
            assert(string_views(parts@) =~= string_views(before) + name_count_part(w@, n as int));
        }
    } else {
        assert(string_views(parts@) =~= string_views(parts@) + name_count_part(w@, n as int));
    }
}

/// The loop call counts of the host functions `w1` and `w2`.
fn names_in(f: &ContractFunctionProfile, w1: &str, w2: &str) -> (r: String)
    ensures
        r@ == names_in_spec(*f, w1@, w2@),
{
    let n1 = label_count(&f.import_labels, &f.import_calls_in_loops, w1);
    let n2 = label_count(&f.import_labels, &f.import_calls_in_loops, w2);
    let mut parts: Vec<String> = Vec::new();
    assert(string_views(parts@) =~= Seq::<Seq<char>>::empty());
    push_name_count(&mut parts, w1, n1);
    push_name_count(&mut parts, w2, n2);
    join(&parts, ", ")
}

/// The suggestion for call sites of category `c` inside loops of `f`, if any.
pub open spec fn loop_rule_spec(
    f: ContractFunctionProfile,
    c: HostCategory,
    id: Seq<char>,
    severity: FindingSeverity,
    category: Seq<char>,
    title_prefix: Seq<char>,
    evidence_mid: Seq<char>,
    extra: Seq<char>,
    rec: Seq<char>,
) -> Seq<SuggestionView> {
    let n = loop_count(f, c);
    if n > 0 {
        seq![
            (
                id,
                severity,
                category,
                Some(f.name@),
                title_prefix + f.name@ + "`"@,
                decimal(n as nat) + evidence_mid + extra,
                rec,
                Basis::Static,
                None,
            ),
        ]
    } else {
        Seq::empty()
    }
}

/// Adds the suggestion for call sites of category `c` inside loops.
fn loop_rule(
    out: &mut Vec<Suggestion>,
    f: &ContractFunctionProfile,
    c: HostCategory,
    id: &str,
    severity: FindingSeverity,
    category: &str,
    title_prefix: &str,
    evidence_mid: &str,
    extra: &str,
    rec: &str,
)
    ensures
        suggestion_views(final(out)@) == suggestion_views(old(out)@) + loop_rule_spec(
            *f,
            c,
            id@,
            severity,
            category@,
            title_prefix@,
            evidence_mid@,
            extra@,
            rec@,
        ),
{
    let n = f.loop_sites(c);
    if n > 0 {
        let title = concat3(title_prefix, f.name.as_str(), "`");
        let evidence = count_text(n as u64, evidence_mid, extra);
        let s = make_suggestion(
            id,
            severity,
            category,
            Some(f.name.as_str()),
            title,
            evidence,
            rec,
            Basis::Static,
            None,
        );
        let ghost before = suggestion_views(out@);
        push_view(out, s);
        assert(suggestion_views(out@) =~= before + loop_rule_spec(
            *f,
            c,
            id@,
            severity,
            category@,
            title_prefix@,
            evidence_mid@,
            extra@,
            rec@,
        ));
    } else {
        assert(suggestion_views(out@) =~= suggestion_views(out@) + Seq::<SuggestionView>::empty());
    }
}

/// `GAS-127`: many storage-write call sites in `f`.
pub open spec fn many_writes_spec(f: ContractFunctionProfile, write_fee: u64, read_fee: u64) -> Seq<
    SuggestionView,
> {
    let n = site_count(f, HostCategory::StorageWrite);
    if n >= 6 {
        seq![
            (
                "GAS-127"@,
                FindingSeverity::Low,
                "storage"@,
                Some(f.name@),
                "`"@ + f.name@ + "` has "@ + decimal(n as nat) + " storage-write call sites"@,
                decimal(n as nat) + " put/del_contract_data sites reachable; each distinct key costs "@
                    + decimal(write_fee as nat) + " + "@ + decimal(read_fee as nat)
                    + " stroops in entry fees at the configured rates"@,
                REC_MANY_WRITES@,
                Basis::Static,
                None,
            ),
        ]
    } else {
        Seq::empty()
    }
}

/// `GAS-128`: loops nested three or more deep.
pub open spec fn nested_loops_spec(f: ContractFunctionProfile) -> Seq<SuggestionView> {
    if f.max_loop_depth >= 3 {
        seq![
            (
                "GAS-128"@,
                FindingSeverity::Medium,
                "cpu"@,
                Some(f.name@),
                "Loops nested "@ + decimal(f.max_loop_depth as nat) + " deep in `"@ + f.name@ + "`"@,
                decimal(f.loops as nat) + " loops reachable, maximum nesting depth "@ + decimal(
                    f.max_loop_depth as nat,
                ),
                REC_NESTED_LOOPS@,
                Basis::Static,
                None,
            ),
        ]
    } else {
        Seq::empty()
    }
}

/// `GAS-130`: dynamic dispatch makes the static counts a lower bound.
pub open spec fn dynamic_dispatch_spec(f: ContractFunctionProfile) -> Seq<SuggestionView> {
    if f.indirect_call_sites > 0 {
        seq![
            (
                "GAS-130"@,
                FindingSeverity::Info,
                "accuracy"@,
                Some(f.name@),
                "`"@ + f.name@ + "` uses dynamic dispatch"@,
                decimal(f.indirect_call_sites as nat)
                    + " call_indirect site(s) reachable; their targets are not followed"@,
                REC_DYNAMIC_DISPATCH@,
                Basis::Static,
                None,
            ),
        ]
    } else {
        Seq::empty()
    }
}

/// The static suggestions for one exported function, in rule order.
pub open spec fn function_rules_spec(f: ContractFunctionProfile, write_fee: u64, read_fee: u64) -> Seq<
    SuggestionView,
> {
    storage_loop_rules_spec(f) + other_loop_rules_spec(f) + shape_rules_spec(f, write_fee, read_fee)
}

/// `GAS-120` and `GAS-121`: storage reads and writes inside loops.
pub open spec fn storage_loop_rules_spec(f: ContractFunctionProfile) -> Seq<SuggestionView> {
    loop_rule_spec(
        f,
        HostCategory::StorageRead,
        "GAS-120"@,
        FindingSeverity::High,
        "storage"@,
        "Storage read inside a loop in `"@,
        " storage-read call site(s) run inside loops ("@,
        names_in_spec(f, "get_contract_data"@, "has_contract_data"@) + ")"@,
        REC_READ_LOOP@,
    ) + loop_rule_spec(
        f,
        HostCategory::StorageWrite,
        "GAS-121"@,
        FindingSeverity::High,
        "storage"@,
        "Storage write inside a loop in `"@,
        " storage-write call site(s) run inside loops ("@,
        names_in_spec(f, "del_contract_data"@, "put_contract_data"@) + ")"@,
        REC_WRITE_LOOP@,
    )
}

/// `GAS-122` to `GAS-126`: cross-contract, crypto, event, auth and TTL
/// host calls inside loops.
pub open spec fn other_loop_rules_spec(f: ContractFunctionProfile) -> Seq<SuggestionView> {
    loop_rule_spec(
        f,
        HostCategory::CrossContract,
        "GAS-122"@,
        FindingSeverity::High,
        "cross-contract"@,
        "Cross-contract call inside a loop in `"@,
        " call/try_call site(s) run inside loops"@,
        ""@,
        REC_XCALL_LOOP@,
    ) + loop_rule_spec(
        f,
        HostCategory::Crypto,
        "GAS-123"@,
        FindingSeverity::Medium,
        "cpu"@,
        "Cryptographic host call inside a loop in `"@,
        " crypto call site(s) run inside loops"@,
        ""@,
        REC_CRYPTO_LOOP@,
    ) + loop_rule_spec(
        f,
        HostCategory::Event,
        "GAS-124"@,
        FindingSeverity::Medium,
        "events"@,
        "Event emitted inside a loop in `"@,
        " contract_event site(s) run inside loops"@,
        ""@,
        REC_EVENT_LOOP@,
    ) + loop_rule_spec(
        f,
        HostCategory::Auth,
        "GAS-125"@,
        FindingSeverity::Medium,
        "auth"@,
        "`require_auth` inside a loop in `"@,
        " auth call site(s) run inside loops"@,
        ""@,
        REC_AUTH_LOOP@,
    ) + loop_rule_spec(
        f,
        HostCategory::StorageTtl,
        "GAS-126"@,
        FindingSeverity::Medium,
        "storage"@,
        "TTL extension inside a loop in `"@,
        " extend_*_ttl site(s) run inside loops"@,
        ""@,
        REC_TTL_LOOP@,
    )
}

/// `GAS-127` to `GAS-130`: many writes, deep nesting, serialization in
/// loops and dynamic dispatch.
pub open spec fn shape_rules_spec(f: ContractFunctionProfile, write_fee: u64, read_fee: u64) -> Seq<
    SuggestionView,
> {
    many_writes_spec(f, write_fee, read_fee) + nested_loops_spec(f) + loop_rule_spec(
        f,
        HostCategory::Serialization,
        "GAS-129"@,
        FindingSeverity::Low,
        "cpu"@,
        "XDR (de)serialization inside a loop in `"@,
        " serialize/deserialize site(s) run inside loops"@,
        ""@,
        REC_SERDE_LOOP@,
    ) + dynamic_dispatch_spec(f)
}

/// Appends the suggestions of `extra` (zero or one) to `out` when `s` is
/// given.
fn push_opt(out: &mut Vec<Suggestion>, s: Option<Suggestion>)
    ensures
        suggestion_views(final(out)@) == suggestion_views(old(out)@) + match s {
            Some(x) => seq![suggestion_view(x)],
            None => Seq::<SuggestionView>::empty(),
        },
{
    match s {
        Some(x) => {
            let ghost before = suggestion_views(out@);
            push_view(out, x);
            assert(suggestion_views(out@) =~= before + seq![suggestion_view(x)]);
        },
        None => {
            assert(suggestion_views(out@) =~= suggestion_views(out@) + Seq::<SuggestionView>::empty());
        },
    }
}

/// `GAS-127` for `f`, if it applies.
fn many_writes(f: &ContractFunctionProfile, write_fee: u64, read_fee: u64) -> (r: Option<Suggestion>)
    ensures
        match r {
            Some(x) => many_writes_spec(*f, write_fee, read_fee) == seq![suggestion_view(x)],
            None => many_writes_spec(*f, write_fee, read_fee) == Seq::<SuggestionView>::empty(),
        },
{
    let n = f.sites(HostCategory::StorageWrite);
    if n >= 6 {
        let d = decimal_string(n as u64);
        let mut title = concat3("`", f.name.as_str(), "` has ");
        push_str(&mut title, d.as_str());
        push_str(&mut title, " storage-write call sites");
        let mut evidence = concat3(d.as_str(), " put/del_contract_data sites reachable; each distinct key costs ", decimal_string(write_fee).as_str());
        push_str(&mut evidence, " + ");
        push_str(&mut evidence, decimal_string(read_fee).as_str());
        push_str(&mut evidence, " stroops in entry fees at the configured rates");
        let s = make_suggestion(
            "GAS-127",
            FindingSeverity::Low,
            "storage",
            Some(f.name.as_str()),
            title,
            evidence,
            REC_MANY_WRITES,
            Basis::Static,
            None,
        );
        assert(many_writes_spec(*f, write_fee, read_fee) =~= seq![suggestion_view(s)]);
        Some(s)
    } else {
        None
    }
}

/// `GAS-128` for `f`, if it applies.
fn nested_loops(f: &ContractFunctionProfile) -> (r: Option<Suggestion>)
    ensures
        match r {
            Some(x) => nested_loops_spec(*f) == seq![suggestion_view(x)],
            None => nested_loops_spec(*f) == Seq::<SuggestionView>::empty(),
        },
{
    if f.max_loop_depth >= 3 {
        let d = decimal_string(f.max_loop_depth as u64);
        let mut title = concat3("Loops nested ", d.as_str(), " deep in `");
        push_str(&mut title, f.name.as_str());
        push_str(&mut title, "`");
        let evidence = concat3(
            decimal_string(f.loops as u64).as_str(),
            " loops reachable, maximum nesting depth ",
            d.as_str(),
        );
        let s = make_suggestion(
            "GAS-128",
            FindingSeverity::Medium,
            "cpu",
            Some(f.name.as_str()),
            title,
            evidence,
            REC_NESTED_LOOPS,
            Basis::Static,
            None,
        );
        assert(nested_loops_spec(*f) =~= seq![suggestion_view(s)]);
        Some(s)
    } else {
        None
    }
}

/// `GAS-130` for `f`, if it applies.
fn dynamic_dispatch(f: &ContractFunctionProfile) -> (r: Option<Suggestion>)
    ensures
        match r {
            Some(x) => dynamic_dispatch_spec(*f) == seq![suggestion_view(x)],
            None => dynamic_dispatch_spec(*f) == Seq::<SuggestionView>::empty(),
        },
{
    if f.indirect_call_sites > 0 {
        let title = concat3("`", f.name.as_str(), "` uses dynamic dispatch");
        let mut evidence = decimal_string(f.indirect_call_sites as u64);
        push_str(&mut evidence, " call_indirect site(s) reachable; their targets are not followed");
        let s = make_suggestion(
            "GAS-130",
            FindingSeverity::Info,
            "accuracy",
            Some(f.name.as_str()),
            title,
            evidence,
            REC_DYNAMIC_DISPATCH,
            Basis::Static,
            None,
        );
        assert(dynamic_dispatch_spec(*f) =~= seq![suggestion_view(s)]);
        Some(s)
    } else {
        None
    }
}

/// Appends `GAS-120` and `GAS-121` for `f`.
fn storage_loop_rules(out: &mut Vec<Suggestion>, f: &ContractFunctionProfile)
    ensures
        suggestion_views(final(out)@) == suggestion_views(old(out)@) + storage_loop_rules_spec(*f),
{
    let ghost start = suggestion_views(out@);
    let reads = names_in(f, "get_contract_data", "has_contract_data");
    let mut read_extra = reads;
    push_str(&mut read_extra, ")");
    loop_rule(
        out,
        f,
        HostCategory::StorageRead,
        "GAS-120",
        FindingSeverity::High,
        "storage",
        "Storage read inside a loop in `",
        " storage-read call site(s) run inside loops (",
        read_extra.as_str(),
        REC_READ_LOOP,
    );
    let writes = names_in(f, "del_contract_data", "put_contract_data");
    let mut write_extra = writes;
    push_str(&mut write_extra, ")");
    loop_rule(
        out,
        f,
        HostCategory::StorageWrite,
        "GAS-121",
        FindingSeverity::High,
        "storage",
        "Storage write inside a loop in `",
        " storage-write call site(s) run inside loops (",
        write_extra.as_str(),
        REC_WRITE_LOOP,
    );
    assert(suggestion_views(out@) =~= start + storage_loop_rules_spec(*f));
}

/// Appends `GAS-122` to `GAS-126` for `f`.
fn other_loop_rules(out: &mut Vec<Suggestion>, f: &ContractFunctionProfile)
    ensures
        suggestion_views(final(out)@) == suggestion_views(old(out)@) + other_loop_rules_spec(*f),
{
    let ghost start = suggestion_views(out@);
    loop_rule(
        out,
        f,
        HostCategory::CrossContract,
        "GAS-122",
        FindingSeverity::High,
        "cross-contract",
        "Cross-contract call inside a loop in `",
        " call/try_call site(s) run inside loops",
        "",
        REC_XCALL_LOOP,
    );
    loop_rule(
        out,
        f,
        HostCategory::Crypto,
        "GAS-123",
        FindingSeverity::Medium,
        "cpu",
        "Cryptographic host call inside a loop in `",
        " crypto call site(s) run inside loops",
        "",
        REC_CRYPTO_LOOP,
    );
    loop_rule(
        out,
        f,
        HostCategory::Event,
        "GAS-124",
        FindingSeverity::Medium,
        "events",
        "Event emitted inside a loop in `",
        " contract_event site(s) run inside loops",
        "",
        REC_EVENT_LOOP,
    );
    loop_rule(
        out,
        f,
        HostCategory::Auth,
        "GAS-125",
        FindingSeverity::Medium,
        "auth",
        "`require_auth` inside a loop in `",
        " auth call site(s) run inside loops",
        "",
        REC_AUTH_LOOP,
    );
    loop_rule(
        out,
        f,
        HostCategory::StorageTtl,
        "GAS-126",
        FindingSeverity::Medium,
        "storage",
        "TTL extension inside a loop in `",
        " extend_*_ttl site(s) run inside loops",
        "",
        REC_TTL_LOOP,
    );
    assert(suggestion_views(out@) =~= start + other_loop_rules_spec(*f));
}

/// Appends `GAS-127` to `GAS-130` for `f`.
fn shape_rules(out: &mut Vec<Suggestion>, f: &ContractFunctionProfile, write_fee: u64, read_fee: u64)
    ensures
        suggestion_views(final(out)@) == suggestion_views(old(out)@) + shape_rules_spec(
            *f,
            write_fee,
            read_fee,
        ),
{
    let ghost start = suggestion_views(out@);
    push_opt(out, many_writes(f, write_fee, read_fee));
    push_opt(out, nested_loops(f));
    loop_rule(
        out,
        f,
        HostCategory::Serialization,
        "GAS-129",
        FindingSeverity::Low,
        "cpu",
        "XDR (de)serialization inside a loop in `",
        " serialize/deserialize site(s) run inside loops",
        "",
        REC_SERDE_LOOP,
    );
    push_opt(out, dynamic_dispatch(f));
    assert(suggestion_views(out@) =~= start + shape_rules_spec(*f, write_fee, read_fee));
}

/// Appends the static suggestions for one exported function.
fn function_rules(out: &mut Vec<Suggestion>, f: &ContractFunctionProfile, write_fee: u64, read_fee: u64)
    ensures
        suggestion_views(final(out)@) == suggestion_views(old(out)@) + function_rules_spec(
            *f,
            write_fee,
            read_fee,
        ),
{
    let ghost start = suggestion_views(out@);
    storage_loop_rules(out, f);
    other_loop_rules(out, f);
    shape_rules(out, f, write_fee, read_fee);
    assert(suggestion_views(out@) =~= start + function_rules_spec(*f, write_fee, read_fee));
}

/// The static suggestions of the first functions of `fs`, function by
/// function.
pub open spec fn execution_rules_spec(fs: Seq<ContractFunctionProfile>, write_fee: u64, read_fee: u64) -> Seq<
    SuggestionView,
>
    decreases fs.len(),
{
    if fs.len() == 0 {
        Seq::empty()
    } else {
        execution_rules_spec(fs.drop_last(), write_fee, read_fee) + function_rules_spec(
            fs.last(),
            write_fee,
            read_fee,
        )
    }
}

/// The static per-function suggestions (`GAS-120` to `GAS-130`): host
/// calls inside loops, many storage writes, deep loop nesting and dynamic
/// dispatch, function by function and rule by rule.
pub fn execution_rules(functions: &[ContractFunctionProfile], write_fee: u64, read_fee: u64) -> (r: Vec<
    Suggestion,
>)
    ensures
        suggestion_views(r@) == execution_rules_spec(functions@, write_fee, read_fee),
        forall|i: int|
            0 <= i < functions@.len() && loop_count(#[trigger] functions@[i], HostCategory::StorageRead) > 0
                ==> exists|j: int|
                0 <= j < r@.len() && #[trigger] suggestion_views(r@)[j] == read_loop_view(functions@[i]),
        forall|i: int|
            0 <= i < functions@.len() && loop_count(#[trigger] functions@[i], HostCategory::StorageWrite) > 0
                ==> exists|j: int|
                0 <= j < r@.len() && #[trigger] suggestion_views(r@)[j] == write_loop_view(functions@[i]),
        forall|j: int|
            0 <= j < r@.len() && (#[trigger] suggestion_views(r@)[j]).0 == "GAS-120"@ ==> exists|i: int|
                0 <= i < functions@.len() && loop_count(functions@[i], HostCategory::StorageRead) > 0
                    && #[trigger] read_loop_view(functions@[i]) == suggestion_views(r@)[j],
        forall|j: int|
            0 <= j < r@.len() && (#[trigger] suggestion_views(r@)[j]).0 == "GAS-121"@ ==> exists|i: int|
                0 <= i < functions@.len() && loop_count(functions@[i], HostCategory::StorageWrite) > 0
                    && #[trigger] write_loop_view(functions@[i]) == suggestion_views(r@)[j],
{
    proof {
        assert forall|i: int|
            0 <= i < functions@.len() && loop_count(#[trigger] functions@[i], HostCategory::StorageRead)
                > 0 implies exists|j: int|
            0 <= j < execution_rules_spec(functions@, write_fee, read_fee).len()
                && #[trigger] execution_rules_spec(functions@, write_fee, read_fee)[j] == read_loop_view(
                functions@[i],
            ) by {
            law_storage_read_in_loop_is_reported(functions@, write_fee, read_fee, i);
        }
        assert forall|i: int|
            0 <= i < functions@.len() && loop_count(#[trigger] functions@[i], HostCategory::StorageWrite)
                > 0 implies exists|j: int|
            0 <= j < execution_rules_spec(functions@, write_fee, read_fee).len()
                && #[trigger] execution_rules_spec(functions@, write_fee, read_fee)[j] == write_loop_view(
                functions@[i],
            ) by {
            law_storage_write_in_loop_is_reported(functions@, write_fee, read_fee, i);
        }
        assert forall|j: int|
            0 <= j < execution_rules_spec(functions@, write_fee, read_fee).len() && (
            #[trigger] execution_rules_spec(functions@, write_fee, read_fee)[j]).0 == "GAS-120"@ implies exists|i: int|
            0 <= i < functions@.len() && loop_count(functions@[i], HostCategory::StorageRead) > 0
                && #[trigger] read_loop_view(functions@[i]) == execution_rules_spec(
                functions@,
                write_fee,
                read_fee,
            )[j] by {
            law_gas120_only_for_storage_reads_in_loops(functions@, write_fee, read_fee, j);
        }
        assert forall|j: int|
            0 <= j < execution_rules_spec(functions@, write_fee, read_fee).len() && (
            #[trigger] execution_rules_spec(functions@, write_fee, read_fee)[j]).0 == "GAS-121"@ implies exists|i: int|
            0 <= i < functions@.len() && loop_count(functions@[i], HostCategory::StorageWrite) > 0
                && #[trigger] write_loop_view(functions@[i]) == execution_rules_spec(
                functions@,
                write_fee,
                read_fee,
            )[j] by {
            law_gas121_only_for_storage_writes_in_loops(functions@, write_fee, read_fee, j);
        }
    }
    let mut out: Vec<Suggestion> = Vec::new();
    assert(suggestion_views(out@) =~= Seq::<SuggestionView>::empty());
    let mut i: usize = 0;
    while i < functions.len()
        invariant
            i <= functions@.len(),
            suggestion_views(out@) == execution_rules_spec(functions@.take(i as int), write_fee, read_fee),
        decreases functions@.len() - i,
    {
        assert(functions@.take(i + 1).drop_last() =~= functions@.take(i as int));
        function_rules(&mut out, &functions[i], write_fee, read_fee);
        i += 1;
    }
    assert(functions@.take(i as int) =~= functions@);
    out
}

/// The `GAS-120` suggestion for `f`: a High storage finding that names `f`
/// and counts its storage reads inside loops.
pub open spec fn read_loop_view(f: ContractFunctionProfile) -> SuggestionView {
    (
        "GAS-120"@,
        FindingSeverity::High,
        "storage"@,
        Some(f.name@),
        "Storage read inside a loop in `"@ + f.name@ + "`"@,
        decimal(loop_count(f, HostCategory::StorageRead) as nat)
            + " storage-read call site(s) run inside loops ("@ + names_in_spec(
            f,
            "get_contract_data"@,
            "has_contract_data"@,
        ) + ")"@,
        REC_READ_LOOP@,
        Basis::Static,
        None,
    )
}

/// Every function that reads storage inside a loop gets a High `GAS-120`
/// suggestion naming it among the per-function suggestions.
pub proof fn law_storage_read_in_loop_is_reported(
    fs: Seq<ContractFunctionProfile>,
    write_fee: u64,
    read_fee: u64,
    i: int,
)
    requires
        0 <= i < fs.len(),
        loop_count(fs[i], HostCategory::StorageRead) > 0,
    ensures
        exists|j: int|
            0 <= j < execution_rules_spec(fs, write_fee, read_fee).len()
                && #[trigger] execution_rules_spec(fs, write_fee, read_fee)[j] == read_loop_view(fs[i]),
        read_loop_view(fs[i]).0 == "GAS-120"@,
        read_loop_view(fs[i]).1 == FindingSeverity::High,
        read_loop_view(fs[i]).3 == Some(fs[i].name@),
{
    let fr = function_rules_spec(fs[i], write_fee, read_fee);
    assert(fr[0] == read_loop_view(fs[i]));
    lemma_function_rule_listed(fs, write_fee, read_fee, i, 0);
}

/// No suggestion of `s` has the id `id`.
pub open spec fn lacks_id(s: Seq<SuggestionView>, id: Seq<char>) -> bool {
    forall|k: int| 0 <= k < s.len() ==> #[trigger] s[k].0 != id
}

proof fn lemma_lacks_id_concat(a: Seq<SuggestionView>, b: Seq<SuggestionView>, id: Seq<char>)
    ensures
        lacks_id(a + b, id) == (lacks_id(a, id) && lacks_id(b, id)),
{
    if lacks_id(a + b, id) {
        assert forall|k: int| 0 <= k < a.len() implies #[trigger] a[k].0 != id by {
            assert((a + b)[k] == a[k]);
        }
        assert forall|k: int| 0 <= k < b.len() implies #[trigger] b[k].0 != id by {
            assert((a + b)[a.len() + k] == b[k]);
        }
    }
}

/// Two different rule ids, told apart by their last character.
proof fn lemma_rule_ids_differ(a: Seq<char>, b: Seq<char>)
    requires
        a.len() == 7,
        b.len() == 7,
        a[6] != b[6],
    ensures
        a != b,
{
}

proof fn lemma_reveal_rule_ids()
    ensures
        "GAS-121"@ != "GAS-120"@,
        "GAS-122"@ != "GAS-120"@,
        "GAS-123"@ != "GAS-120"@,
        "GAS-124"@ != "GAS-120"@,
        "GAS-125"@ != "GAS-120"@,
        "GAS-126"@ != "GAS-120"@,
        "GAS-127"@ != "GAS-120"@,
        "GAS-128"@ != "GAS-120"@,
        "GAS-129"@ != "GAS-120"@,
        "GAS-130"@ != "GAS-120"@,
        "GAS-120"@ != "GAS-121"@,
        "GAS-122"@ != "GAS-121"@,
        "GAS-123"@ != "GAS-121"@,
        "GAS-124"@ != "GAS-121"@,
        "GAS-125"@ != "GAS-121"@,
        "GAS-126"@ != "GAS-121"@,
        "GAS-127"@ != "GAS-121"@,
        "GAS-128"@ != "GAS-121"@,
        "GAS-129"@ != "GAS-121"@,
        "GAS-130"@ != "GAS-121"@,
{
    reveal_strlit("GAS-120");
    reveal_strlit("GAS-121");
    reveal_strlit("GAS-122");
    reveal_strlit("GAS-123");
    reveal_strlit("GAS-124");
    reveal_strlit("GAS-125");
    reveal_strlit("GAS-126");
    reveal_strlit("GAS-127");
    reveal_strlit("GAS-128");
    reveal_strlit("GAS-129");
    reveal_strlit("GAS-130");
    let g = "GAS-120"@;
    lemma_rule_ids_differ("GAS-121"@, g);
    lemma_rule_ids_differ("GAS-122"@, g);
    lemma_rule_ids_differ("GAS-123"@, g);
    lemma_rule_ids_differ("GAS-124"@, g);
    lemma_rule_ids_differ("GAS-125"@, g);
    lemma_rule_ids_differ("GAS-126"@, g);
    lemma_rule_ids_differ("GAS-127"@, g);
    lemma_rule_ids_differ("GAS-128"@, g);
    lemma_rule_ids_differ("GAS-129"@, g);
    assert("GAS-130"@[5] != g[5]);
    let h = "GAS-121"@;
    lemma_rule_ids_differ("GAS-122"@, h);
    lemma_rule_ids_differ("GAS-123"@, h);
    lemma_rule_ids_differ("GAS-124"@, h);
    lemma_rule_ids_differ("GAS-125"@, h);
    lemma_rule_ids_differ("GAS-126"@, h);
    lemma_rule_ids_differ("GAS-127"@, h);
    lemma_rule_ids_differ("GAS-128"@, h);
    lemma_rule_ids_differ("GAS-129"@, h);
    assert("GAS-130"@[5] != h[5]);
}

proof fn lemma_other_loop_rules_lack(f: ContractFunctionProfile, g: Seq<char>)
    requires
        g == "GAS-120"@ || g == "GAS-121"@,
    ensures
        lacks_id(other_loop_rules_spec(f), g),
{
    lemma_reveal_rule_ids();
    let s = other_loop_rules_spec(f);
    assert forall|k: int| 0 <= k < s.len() implies #[trigger] s[k].0 != g by {
        let i = s[k].0;
        assert(i == "GAS-122"@ || i == "GAS-123"@ || i == "GAS-124"@ || i == "GAS-125"@ || i
            == "GAS-126"@);
    }
}

proof fn lemma_shape_rules_lack(f: ContractFunctionProfile, write_fee: u64, read_fee: u64, g: Seq<char>)
    requires
        g == "GAS-120"@ || g == "GAS-121"@,
    ensures
        lacks_id(shape_rules_spec(f, write_fee, read_fee), g),
{
    lemma_reveal_rule_ids();
    let s = shape_rules_spec(f, write_fee, read_fee);
    assert forall|k: int| 0 <= k < s.len() implies #[trigger] s[k].0 != g by {
        let i = s[k].0;
        assert(i == "GAS-127"@ || i == "GAS-128"@ || i == "GAS-129"@ || i == "GAS-130"@);
    }
}

proof fn lemma_storage_rules_gas120(f: ContractFunctionProfile, k: int)
    requires
        0 <= k < storage_loop_rules_spec(f).len(),
        storage_loop_rules_spec(f)[k].0 == "GAS-120"@,
    ensures
        k == 0,
        loop_count(f, HostCategory::StorageRead) > 0,
        storage_loop_rules_spec(f)[k] == read_loop_view(f),
{
    lemma_reveal_rule_ids();
    let s = storage_loop_rules_spec(f);
    if loop_count(f, HostCategory::StorageRead) > 0 {
        assert(s[0] == read_loop_view(f));
        if k > 0 {
            assert(s[k].0 == "GAS-121"@);
        }
    } else {
        assert(s[k].0 == "GAS-121"@);
    }
}

/// Among one function's suggestions, a `GAS-120` one is its
/// storage-read-in-loop finding, made only when it reads storage inside a
/// loop.
proof fn lemma_function_gas120(f: ContractFunctionProfile, write_fee: u64, read_fee: u64, k: int)
    requires
        0 <= k < function_rules_spec(f, write_fee, read_fee).len(),
        function_rules_spec(f, write_fee, read_fee)[k].0 == "GAS-120"@,
    ensures
        loop_count(f, HostCategory::StorageRead) > 0,
        function_rules_spec(f, write_fee, read_fee)[k] == read_loop_view(f),
{
    let g = "GAS-120"@;
    let st = storage_loop_rules_spec(f);
    let ot = other_loop_rules_spec(f);
    let sh = shape_rules_spec(f, write_fee, read_fee);
    let fr = function_rules_spec(f, write_fee, read_fee);
    lemma_other_loop_rules_lack(f, g);
    lemma_shape_rules_lack(f, write_fee, read_fee, g);
    lemma_lacks_id_concat(ot, sh, g);
    assert(fr =~= st + (ot + sh));
    if k < st.len() {
        assert(fr[k] == st[k]);
        lemma_storage_rules_gas120(f, k);
    } else {
        assert(fr[k] == (ot + sh)[k - st.len()]);
    }
}

/// A `GAS-120` suggestion is only made for a function that reads storage
/// inside a loop: each one among the per-function suggestions is such a
/// function's storage-read-in-loop finding.
pub proof fn law_gas120_only_for_storage_reads_in_loops(
    fs: Seq<ContractFunctionProfile>,
    write_fee: u64,
    read_fee: u64,
    j: int,
)
    requires
        0 <= j < execution_rules_spec(fs, write_fee, read_fee).len(),
        execution_rules_spec(fs, write_fee, read_fee)[j].0 == "GAS-120"@,
    ensures
        exists|i: int|
            0 <= i < fs.len() && loop_count(fs[i], HostCategory::StorageRead) > 0
                && #[trigger] read_loop_view(fs[i]) == execution_rules_spec(fs, write_fee, read_fee)[j],
    decreases fs.len(),
{
    let all = execution_rules_spec(fs, write_fee, read_fee);
    let prev = execution_rules_spec(fs.drop_last(), write_fee, read_fee);
    let last = fs.len() - 1;
    if j < prev.len() {
        assert(all[j] == prev[j]);
        law_gas120_only_for_storage_reads_in_loops(fs.drop_last(), write_fee, read_fee, j);
        let i = choose|i: int|
            0 <= i < fs.drop_last().len() && loop_count(fs.drop_last()[i], HostCategory::StorageRead) > 0
                && #[trigger] read_loop_view(fs.drop_last()[i]) == prev[j];
        assert(fs.drop_last()[i] == fs[i]);
    } else {
        assert(all[j] == function_rules_spec(fs[last], write_fee, read_fee)[j - prev.len()]);
        lemma_function_gas120(fs[last], write_fee, read_fee, j - prev.len());
    }
}

proof fn lemma_storage_rules_gas121(f: ContractFunctionProfile, k: int)
    requires
        0 <= k < storage_loop_rules_spec(f).len(),
        storage_loop_rules_spec(f)[k].0 == "GAS-121"@,
    ensures
        loop_count(f, HostCategory::StorageWrite) > 0,
        storage_loop_rules_spec(f)[k] == write_loop_view(f),
{
    lemma_reveal_rule_ids();
    let s = storage_loop_rules_spec(f);
    let r: int = if loop_count(f, HostCategory::StorageRead) > 0 { 1 } else { 0 };
    if r == 1 && k == 0 {
        assert(s[0].0 == "GAS-120"@);
    } else {
        assert(k == r);
        assert(s[k] == write_loop_view(f));
    }
}

/// Among one function's suggestions, a `GAS-121` one is its
/// storage-write-in-loop finding, made only when it writes storage inside a
/// loop.
proof fn lemma_function_gas121(f: ContractFunctionProfile, write_fee: u64, read_fee: u64, k: int)
    requires
        0 <= k < function_rules_spec(f, write_fee, read_fee).len(),
        function_rules_spec(f, write_fee, read_fee)[k].0 == "GAS-121"@,
    ensures
        loop_count(f, HostCategory::StorageWrite) > 0,
        function_rules_spec(f, write_fee, read_fee)[k] == write_loop_view(f),
{
    let g = "GAS-121"@;
    let st = storage_loop_rules_spec(f);
    let ot = other_loop_rules_spec(f);
    let sh = shape_rules_spec(f, write_fee, read_fee);
    let fr = function_rules_spec(f, write_fee, read_fee);
    lemma_other_loop_rules_lack(f, g);
    lemma_shape_rules_lack(f, write_fee, read_fee, g);
    lemma_lacks_id_concat(ot, sh, g);
    assert(fr =~= st + (ot + sh));
    if k < st.len() {
        assert(fr[k] == st[k]);
        lemma_storage_rules_gas121(f, k);
    } else {
        assert(fr[k] == (ot + sh)[k - st.len()]);
    }
}

/// A `GAS-121` suggestion is only made for a function that writes storage
/// inside a loop: each one among the per-function suggestions is such a
/// function's storage-write-in-loop finding.
pub proof fn law_gas121_only_for_storage_writes_in_loops(
    fs: Seq<ContractFunctionProfile>,
    write_fee: u64,
    read_fee: u64,
    j: int,
)
    requires
        0 <= j < execution_rules_spec(fs, write_fee, read_fee).len(),
        execution_rules_spec(fs, write_fee, read_fee)[j].0 == "GAS-121"@,
    ensures
        exists|i: int|
            0 <= i < fs.len() && loop_count(fs[i], HostCategory::StorageWrite) > 0
                && #[trigger] write_loop_view(fs[i]) == execution_rules_spec(fs, write_fee, read_fee)[j],
    decreases fs.len(),
{
    let all = execution_rules_spec(fs, write_fee, read_fee);
    let prev = execution_rules_spec(fs.drop_last(), write_fee, read_fee);
    let last = fs.len() - 1;
    if j < prev.len() {
        assert(all[j] == prev[j]);
        law_gas121_only_for_storage_writes_in_loops(fs.drop_last(), write_fee, read_fee, j);
        let i = choose|i: int|
            0 <= i < fs.drop_last().len() && loop_count(fs.drop_last()[i], HostCategory::StorageWrite) > 0
                && #[trigger] write_loop_view(fs.drop_last()[i]) == prev[j];
        assert(fs.drop_last()[i] == fs[i]);
    } else {
        assert(all[j] == function_rules_spec(fs[last], write_fee, read_fee)[j - prev.len()]);
        lemma_function_gas121(fs[last], write_fee, read_fee, j - prev.len());
    }
}

/// The `GAS-121` suggestion for `f`: a High storage finding that names `f`
/// and counts its storage writes inside loops.
pub open spec fn write_loop_view(f: ContractFunctionProfile) -> SuggestionView {
    (
        "GAS-121"@,
        FindingSeverity::High,
        "storage"@,
        Some(f.name@),
        "Storage write inside a loop in `"@ + f.name@ + "`"@,
        decimal(loop_count(f, HostCategory::StorageWrite) as nat)
            + " storage-write call site(s) run inside loops ("@ + names_in_spec(
            f,
            "del_contract_data"@,
            "put_contract_data"@,
        ) + ")"@,
        REC_WRITE_LOOP@,
        Basis::Static,
        None,
    )
}

/// Every function that writes storage inside a loop gets a High `GAS-121`
/// suggestion naming it among the per-function suggestions.
pub proof fn law_storage_write_in_loop_is_reported(
    fs: Seq<ContractFunctionProfile>,
    write_fee: u64,
    read_fee: u64,
    i: int,
)
    requires
        0 <= i < fs.len(),
        loop_count(fs[i], HostCategory::StorageWrite) > 0,
    ensures
        exists|j: int|
            0 <= j < execution_rules_spec(fs, write_fee, read_fee).len()
                && #[trigger] execution_rules_spec(fs, write_fee, read_fee)[j] == write_loop_view(fs[i]),
        write_loop_view(fs[i]).0 == "GAS-121"@,
        write_loop_view(fs[i]).1 == FindingSeverity::High,
        write_loop_view(fs[i]).3 == Some(fs[i].name@),
{
    let fr = function_rules_spec(fs[i], write_fee, read_fee);
    let k: int = if loop_count(fs[i], HostCategory::StorageRead) > 0 { 1 } else { 0 };
    assert(fr[k] == write_loop_view(fs[i]));
    lemma_function_rule_listed(fs, write_fee, read_fee, i, k);
}

/// Each suggestion for one function stands among the per-function
/// suggestions of all of them.
proof fn lemma_function_rule_listed(
    fs: Seq<ContractFunctionProfile>,
    write_fee: u64,
    read_fee: u64,
    i: int,
    k: int,
)
    requires
        0 <= i < fs.len(),
        0 <= k < function_rules_spec(fs[i], write_fee, read_fee).len(),
    ensures
        exists|j: int|
            0 <= j < execution_rules_spec(fs, write_fee, read_fee).len()
                && #[trigger] execution_rules_spec(fs, write_fee, read_fee)[j] == function_rules_spec(
                fs[i],
                write_fee,
                read_fee,
            )[k],
    decreases fs.len(),
{
    let all = execution_rules_spec(fs, write_fee, read_fee);
    let prev = execution_rules_spec(fs.drop_last(), write_fee, read_fee);
    let fr = function_rules_spec(fs[i], write_fee, read_fee);
    if i == fs.len() - 1 {
        assert(all[prev.len() + k] == fr[k]);
    } else {
        assert(fs.drop_last()[i] == fs[i]);
        lemma_function_rule_listed(fs.drop_last(), write_fee, read_fee, i, k);
        let j = choose|j: int| 0 <= j < prev.len() && #[trigger] prev[j] == fr[k];
        assert(all[j] == prev[j]);
    }
}

// ── Ordering ──────────────────────────────────────────────────────────────────

/// `a` precedes `b` as an optional function name: no name first, then by
/// name.
pub open spec fn opt_name_lt(a: Option<Seq<char>>, b: Option<Seq<char>>) -> bool {
    match (a, b) {
        (None, Some(_)) => true,
        (Some(x), Some(y)) => seq_lt(x, y),
        _ => false,
    }
}

/// `a` must be listed after `b`: less severe, or as severe with a later id,
/// or the same id and a later function.
pub open spec fn suggestion_after(a: SuggestionView, b: SuggestionView) -> bool {
    severity_rank_spec(a.1) > severity_rank_spec(b.1) || (severity_rank_spec(a.1)
        == severity_rank_spec(b.1) && (seq_lt(b.0, a.0) || (b.0 == a.0 && opt_name_lt(b.3, a.3))))
}

/// Suggestions in report order.
pub open spec fn suggestions_sorted(s: Seq<SuggestionView>) -> bool {
    forall|i: int, j: int| 0 <= i < j < s.len() ==> !suggestion_after(#[trigger] s[i], #[trigger] s[j])
}

proof fn lemma_opt_name_order(a: Option<Seq<char>>, b: Option<Seq<char>>, c: Option<Seq<char>>)
    ensures
        opt_name_lt(a, b) ==> !opt_name_lt(b, a),
        !opt_name_lt(a, b) && !opt_name_lt(b, a) ==> a == b,
        opt_name_lt(a, b) && opt_name_lt(b, c) ==> opt_name_lt(a, c),
{
    match (a, b) {
        (Some(x), Some(y)) => {
            lemma_seq_lt_asym(x, y);
            lemma_seq_lt_total(x, y);
            match c {
                Some(z) => {
                    if seq_lt(x, y) && seq_lt(y, z) {
                        lemma_seq_lt_trans(x, y, z);
                    }
                },
                None => {},
            }
        },
        _ => {},
    }
}

proof fn lemma_suggestion_order(a: SuggestionView, b: SuggestionView, c: SuggestionView)
    ensures
        suggestion_after(a, b) ==> !suggestion_after(b, a),
        suggestion_after(a, b) && suggestion_after(b, c) ==> suggestion_after(a, c),
        !suggestion_after(a, b) ==> suggestion_after(b, a) || (severity_rank_spec(a.1)
            == severity_rank_spec(b.1) && a.0 == b.0 && a.3 == b.3),
{
    lemma_seq_lt_asym(a.0, b.0);
    lemma_seq_lt_asym(b.0, a.0);
    lemma_seq_lt_total(a.0, b.0);
    lemma_opt_name_order(a.3, b.3, c.3);
    lemma_opt_name_order(b.3, a.3, c.3);
    if seq_lt(b.0, a.0) && seq_lt(c.0, b.0) {
        lemma_seq_lt_trans(c.0, b.0, a.0);
    }
    lemma_opt_name_order(c.3, b.3, a.3);
}

/// `a` precedes `b` as optional function names.
fn opt_name_lt_exec(a: &Option<String>, b: &Option<String>) -> (r: bool)
    ensures
        r == opt_name_lt(
            match a {
                Some(x) => Some(x@),
                None => None,
            },
            match b {
                Some(x) => Some(x@),
                None => None,
            },
        ),
{
    match (a, b) {
        (None, Some(_)) => true,
        (Some(x), Some(y)) => str_lt(x.as_str(), y.as_str()),
        _ => false,
    }
}

/// Whether suggestion `a` must come after `b`.
fn suggestion_after_exec(a: &Suggestion, b: &Suggestion) -> (r: bool)
    ensures
        r == suggestion_after(suggestion_view(*a), suggestion_view(*b)),
{
    let ra = a.severity.rank();
    let rb = b.severity.rank();
    if ra != rb {
        return ra > rb;
    }
    if str_lt(b.id.as_str(), a.id.as_str()) {
        return true;
    }
    if crate::text::str_eq(b.id.as_str(), a.id.as_str()) {
        return opt_name_lt_exec(&b.function, &a.function);
    }
    false
}

/// Sorts suggestions by severity (most severe first), then id, then
/// function, keeping the order of those that tie.
pub fn sort_suggestions(v: Vec<Suggestion>) -> (r: Vec<Suggestion>)
    ensures
        suggestions_sorted(suggestion_views(r@)),
        suggestion_views(r@).to_multiset() == suggestion_views(v@).to_multiset(),
{
    let mut out: Vec<Suggestion> = Vec::new();
    let ghost src = suggestion_views(v@);
    let mut rest = v;
    assert(suggestion_views(out@) =~= Seq::<SuggestionView>::empty());
    proof {
        suggestion_views(out@).to_multiset_ensures();
        vstd::multiset::lemma_multiset_empty_len(suggestion_views(out@).to_multiset());
    }
    assert(suggestion_views(out@).to_multiset().add(suggestion_views(rest@).to_multiset())
        =~= src.to_multiset());
    while rest.len() > 0
        invariant
            suggestions_sorted(suggestion_views(out@)),
            suggestion_views(out@).to_multiset().add(suggestion_views(rest@).to_multiset())
                == src.to_multiset(),
        decreases rest@.len(),
    {
        let ghost before = rest@;
        let x = rest.remove(0);
        proof {
            assert(suggestion_views(before) =~= suggestion_views(rest@).insert(0, suggestion_view(x)));
            vstd::seq_lib::to_multiset_insert(suggestion_views(rest@), 0, suggestion_view(x));
        }
        let mut p: usize = 0;
        while p < out.len() && !suggestion_after_exec(&out[p], &x)
            invariant
                p <= out@.len(),
                forall|i: int|
                    0 <= i < p ==> !suggestion_after(
                        #[trigger] suggestion_views(out@)[i],
                        suggestion_view(x),
                    ),
            decreases out@.len() - p,
        {
            p += 1;
        }
        let ghost ov = suggestion_views(out@);
        out.insert(p, x);
        proof {
            assert(suggestion_views(out@) =~= ov.insert(p as int, suggestion_view(x)));
            vstd::seq_lib::to_multiset_insert(ov, p as int, suggestion_view(x));
            let nv = suggestion_views(out@);
            let xv = suggestion_view(x);
            assert forall|i: int, j: int| 0 <= i < j < nv.len() implies !suggestion_after(
                #[trigger] nv[i],
                #[trigger] nv[j],
            ) by {
                if j < p {
                    assert(nv[i] == ov[i] && nv[j] == ov[j]);
                } else if j == p {
                    assert(nv[i] == ov[i] && nv[j] == xv);
                } else if i == p {
                    assert(nv[j] == ov[j - 1]);
                    assert(suggestion_after(ov[p as int], xv));
                    if p < j - 1 {
                        assert(!suggestion_after(ov[p as int], ov[j - 1]));
                    }
                    lemma_suggestion_order(xv, ov[j - 1], xv);
                    lemma_suggestion_order(ov[p as int], xv, ov[j - 1]);
                    lemma_suggestion_order(ov[j - 1], xv, ov[j - 1]);
                    lemma_suggestion_order(ov[p as int], ov[j - 1], xv);
                    lemma_suggestion_order(xv, ov[p as int], ov[j - 1]);
                } else if i < p {
                    assert(nv[i] == ov[i] && nv[j] == ov[j - 1]);
                } else {
                    assert(nv[i] == ov[i - 1] && nv[j] == ov[j - 1]);
                }
            }
        }
    }
    assert(suggestion_views(rest@) =~= Seq::<SuggestionView>::empty());
    proof {
        suggestion_views(rest@).to_multiset_ensures();
        vstd::multiset::lemma_multiset_empty_len(suggestion_views(rest@).to_multiset());
    }
    assert(suggestion_views(out@).to_multiset() =~= suggestion_views(out@).to_multiset().add(
        suggestion_views(rest@).to_multiset(),
    ));
    out
}

// ── Compatibility and size ────────────────────────────────────────────────────

/// One suggestion when `cond`, none otherwise.
pub open spec fn when(cond: bool, v: SuggestionView) -> Seq<SuggestionView> {
    if cond {
        seq![v]
    } else {
        Seq::empty()
    }
}

/// Names of the functions among `fs` whose reachable code has `feature`.
pub open spec fn functions_with_feature(fs: Seq<ContractFunctionProfile>, feature: Seq<char>) -> Seq<
    Seq<char>,
>
    decreases fs.len(),
{
    if fs.len() == 0 {
        Seq::empty()
    } else if string_views(fs.last().rejected_features@).contains(feature) {
        functions_with_feature(fs.drop_last(), feature).push(fs.last().name@)
    } else {
        functions_with_feature(fs.drop_last(), feature)
    }
}

/// The float features.
pub open spec fn is_float_feature(feature: Seq<char>) -> bool {
    feature == "floating-point"@ || feature == "saturating-float-to-int"@
}

/// `GAS-102`/`GAS-103` for one rejected feature.
pub open spec fn feature_rule_spec(feature: Seq<char>, fs: Seq<ContractFunctionProfile>) -> SuggestionView {
    let fns = functions_with_feature(fs, feature);
    (
        if is_float_feature(feature) {
            "GAS-102"@
        } else {
            "GAS-103"@
        },
        FindingSeverity::Critical,
        "compatibility"@,
        None,
        "Uses the `"@ + feature + "` Wasm feature, which Soroban rejects"@,
        if fns.len() == 0 {
            "`"@ + feature + "` instructions found in the module"@
        } else {
            "`"@ + feature + "` instructions reachable from: "@ + join_spec(fns, ", "@)
        },
        if is_float_feature(feature) {
            REC_FLOAT@
        } else {
            REC_PROPOSAL@
        },
        Basis::Certain,
        None,
    )
}

/// The feature rules for the first features of `features`, in order.
pub open spec fn feature_rules_spec(features: Seq<Seq<char>>, fs: Seq<ContractFunctionProfile>) -> Seq<
    SuggestionView,
>
    decreases features.len(),
{
    if features.len() == 0 {
        Seq::empty()
    } else {
        feature_rules_spec(features.drop_last(), fs).push(feature_rule_spec(features.last(), fs))
    }
}

/// The compatibility suggestions (`GAS-101` to `GAS-105`): a start
/// section, rejected Wasm features, imports that are not host functions and
/// a missing environment meta section.
pub open spec fn compatibility_spec(m: ModuleSummary, fs: Seq<ContractFunctionProfile>) -> Seq<
    SuggestionView,
> {
    when(
        m.has_start,
        (
            "GAS-101"@,
            FindingSeverity::Critical,
            "compatibility"@,
            None,
            "Module has a Wasm start section"@,
            "start section present"@,
            REC_START@,
            Basis::Certain,
            None,
        ),
    ) + feature_rules_spec(string_views(m.rejected_features@), fs) + when(
        m.unknown_imports@.len() > 0,
        (
            "GAS-104"@,
            FindingSeverity::Critical,
            "compatibility"@,
            None,
            decimal(m.unknown_imports@.len()) + " import(s) are not Soroban host functions"@,
            "unresolvable imports: "@ + join_spec(string_views(m.unknown_imports@), ", "@),
            REC_UNKNOWN_IMPORTS@,
            Basis::Certain,
            None,
        ),
    ) + when(
        !m.has_env_meta && m.exported_functions > 0,
        (
            "GAS-105"@,
            FindingSeverity::High,
            "compatibility"@,
            None,
            "Missing `contractenvmetav0` custom section"@,
            "no contractenvmetav0 section"@,
            REC_ENV_META@,
            Basis::Certain,
            None,
        ),
    )
}

/// Names of the functions among `fs` whose reachable code has `feature`.
fn functions_with(fs: &[ContractFunctionProfile], feature: &str) -> (r: Vec<String>)
    ensures
        string_views(r@) == functions_with_feature(fs@, feature@),
{
    let mut out: Vec<String> = Vec::new();
    let mut i: usize = 0;
    while i < fs.len()
        invariant
            i <= fs@.len(),
            string_views(out@) == functions_with_feature(fs@.take(i as int), feature@),
        decreases fs@.len() - i,
    {
        assert(fs@.take(i + 1).drop_last() =~= fs@.take(i as int));
        let mut has = false;
        let mut k: usize = 0;
        while k < fs[i].rejected_features.len()
            invariant
                i < fs@.len(),
                k <= fs@[i as int].rejected_features@.len(),
                has == string_views(fs@[i as int].rejected_features@).take(k as int).contains(feature@),
            decreases fs@[i as int].rejected_features@.len() - k,
        {
            let ghost rv = string_views(fs@[i as int].rejected_features@);
            assert(rv[k as int] == fs@[i as int].rejected_features@[k as int]@);
            assert(rv.take(k + 1) =~= rv.take(k as int).push(rv[k as int]));
            if crate::text::str_eq(fs[i].rejected_features[k].as_str(), feature) {
                has = true;
                assert(rv.take(k + 1)[k as int] == feature@);
            } else {
                proof {
                    if has {
                        let q = choose|q: int| 0 <= q < k && rv.take(k as int)[q] == feature@;
                        assert(rv.take(k + 1)[q] == feature@);
                    } else {
                        assert forall|q: int| 0 <= q < k + 1 implies #[trigger] rv.take(k + 1)[q] != feature@ by {
                            if q < k {
                                assert(rv.take(k + 1)[q] == rv.take(k as int)[q]);
                            }
                        }
                    }
                }
            }
            k += 1;
        }
        assert(string_views(fs@[i as int].rejected_features@).take(k as int) =~= string_views(
            fs@[i as int].rejected_features@,
        ));
        if has {
            let ghost before = out@;
            let n = to_owned_string(fs[i].name.as_str());
            out.push(n);
            proof {
                crate::text::lemma_string_views_push(before, n);
            }
        }
        i += 1;
    }
    assert(fs@.take(i as int) =~= fs@);
    out
}

/// `GAS-102`/`GAS-103` for one rejected feature.
fn feature_rule(feature: &str, fs: &[ContractFunctionProfile]) -> (r: Suggestion)
    ensures
        suggestion_view(r) == feature_rule_spec(feature@, fs@),
{
    let fns = functions_with(fs, feature);
    let c = chars_of(feature);
    let float = eq_str(&c, "floating-point") || eq_str(&c, "saturating-float-to-int");
    let title = concat3("Uses the `", feature, "` Wasm feature, which Soroban rejects");
    let evidence = if fns.len() == 0 {
        concat3("`", feature, "` instructions found in the module")
    } else {
        let mut e = concat3("`", feature, "` instructions reachable from: ");
        push_str(&mut e, join(&fns, ", ").as_str());
        e
    };
    make_suggestion(
        if float {
            "GAS-102"
        } else {
            "GAS-103"
        },
        FindingSeverity::Critical,
        "compatibility",
        None,
        title,
        evidence,
        if float {
            REC_FLOAT
        } else {
            REC_PROPOSAL
        },
        Basis::Certain,
        None,
    )
}

/// The compatibility suggestions (`GAS-101` to `GAS-105`), in rule order.
pub fn compatibility_rules(m: &ModuleSummary, fs: &[ContractFunctionProfile]) -> (r: Vec<Suggestion>)
    ensures
        suggestion_views(r@) == compatibility_spec(*m, fs@),
{
    let mut out: Vec<Suggestion> = Vec::new();
    assert(suggestion_views(out@) =~= Seq::<SuggestionView>::empty());
    if m.has_start {
        let s = make_suggestion(
            "GAS-101",
            FindingSeverity::Critical,
            "compatibility",
            None,
            to_owned_string("Module has a Wasm start section"),
            to_owned_string("start section present"),
            REC_START,
            Basis::Certain,
            None,
        );
        push_view(&mut out, s);
    }
    let ghost first = suggestion_views(out@);
    let ghost feats = string_views(m.rejected_features@);
    let mut i: usize = 0;
    while i < m.rejected_features.len()
        invariant
            i <= m.rejected_features@.len(),
            feats == string_views(m.rejected_features@),
            suggestion_views(out@) == first + feature_rules_spec(feats.take(i as int), fs@),
        decreases m.rejected_features@.len() - i,
    {
        assert(feats.take(i + 1).drop_last() =~= feats.take(i as int));
        assert(feats[i as int] == m.rejected_features@[i as int]@);
        let s = feature_rule(m.rejected_features[i].as_str(), fs);
        push_view(&mut out, s);
        i += 1;
        assert(suggestion_views(out@) =~= first + feature_rules_spec(feats.take(i as int), fs@));
    }
    assert(feats.take(i as int) =~= feats);
    let ghost second = suggestion_views(out@);
    if m.unknown_imports.len() > 0 {
        let mut title = decimal_string(m.unknown_imports.len() as u64);
        push_str(&mut title, " import(s) are not Soroban host functions");
        let mut evidence = to_owned_string("unresolvable imports: ");
        push_str(&mut evidence, join(&m.unknown_imports, ", ").as_str());
        let s = make_suggestion(
            "GAS-104",
            FindingSeverity::Critical,
            "compatibility",
            None,
            title,
            evidence,
            REC_UNKNOWN_IMPORTS,
            Basis::Certain,
            None,
        );
        push_view(&mut out, s);
    }
    let ghost third = suggestion_views(out@);
    if !m.has_env_meta && m.exported_functions > 0 {
        let s = make_suggestion(
            "GAS-105",
            FindingSeverity::High,
            "compatibility",
            None,
            to_owned_string("Missing `contractenvmetav0` custom section"),
            to_owned_string("no contractenvmetav0 section"),
            REC_ENV_META,
            Basis::Certain,
            None,
        );
        push_view(&mut out, s);
    }
    assert(suggestion_views(out@) =~= compatibility_spec(*m, fs@));
    out
}

/// Listing of the strippable custom sections: `name (N B)` for each
/// section that is not Soroban metadata, in order.
pub open spec fn strippable_names(s: Seq<(Seq<char>, usize)>) -> Seq<Seq<char>>
    decreases s.len(),
{
    if s.len() == 0 {
        Seq::empty()
    } else if is_metadata_name(s.last().0) {
        strippable_names(s.drop_last())
    } else {
        strippable_names(s.drop_last()).push(s.last().0 + " ("@ + decimal(s.last().1 as nat) + " B)"@)
    }
}

/// Names of the functions among `fs` that reach debug logging.
pub open spec fn logging_functions(fs: Seq<ContractFunctionProfile>) -> Seq<Seq<char>>
    decreases fs.len(),
{
    if fs.len() == 0 {
        Seq::empty()
    } else if label_total(
        string_views(fs.last().import_labels@),
        fs.last().import_calls@,
        "log_from_linear_memory"@,
    ) > 0 {
        logging_functions(fs.drop_last()).push(fs.last().name@)
    } else {
        logging_functions(fs.drop_last())
    }
}

/// The size suggestions (`GAS-110`, `GAS-111`): strippable custom sections
/// (with the exact upload fee saved) and debug logging compiled in.
pub open spec fn size_spec(
    m: ModuleSummary,
    fs: Seq<ContractFunctionProfile>,
    size_bytes: u64,
    fees: FeeSchedule,
) -> Seq<SuggestionView> {
    when(
        m.strippable_custom_bytes > 0,
        (
            "GAS-110"@,
            if m.strippable_custom_bytes >= 4 * 1024 {
                FindingSeverity::Medium
            } else {
                FindingSeverity::Low
            },
            "size"@,
            None,
            decimal(m.strippable_custom_bytes as nat) + " bytes of non-runtime custom sections"@,
            "strippable sections: "@ + join_spec(
                strippable_names(section_views(m.custom_sections@)),
                ", "@,
            ),
            REC_STRIP@,
            Basis::Certain,
            Some(upload_savings_spec(size_bytes, m.strippable_custom_bytes as u64, fees)),
        ),
    ) + when(
        logging_functions(fs).len() > 0,
        (
            "GAS-111"@,
            FindingSeverity::Medium,
            "size"@,
            None,
            "Debug logging is compiled in"@,
            "log_from_linear_memory reachable from: "@ + join_spec(logging_functions(fs), ", "@),
            REC_DEBUG_LOG@,
            Basis::Static,
            None,
        ),
    )
}

/// `name (N B)` for each strippable section.
fn strippable_listing(v: &Vec<(String, usize)>) -> (r: Vec<String>)
    ensures
        string_views(r@) == strippable_names(section_views(v@)),
{
    let mut out: Vec<String> = Vec::new();
    let mut i: usize = 0;
    while i < v.len()
        invariant
            i <= v@.len(),
            string_views(out@) == strippable_names(section_views(v@).take(i as int)),
        decreases v@.len() - i,
    {
        let ghost sv = section_views(v@);
        assert(sv.take(i + 1).drop_last() =~= sv.take(i as int));
        assert(sv[i as int] == (v@[i as int].0@, v@[i as int].1));
        if !is_soroban_metadata_section(v[i].0.as_str()) {
            let mut n = concat3(v[i].0.as_str(), " (", decimal_string(v[i].1 as u64).as_str());
            push_str(&mut n, " B)");
            let ghost before = out@;
            out.push(n);
            proof {
                crate::text::lemma_string_views_push(before, n);
            }
        }
        i += 1;
    }
    assert(section_views(v@).take(i as int) =~= section_views(v@));
    out
}

/// Names of the functions that reach debug logging.
fn logging_listing(fs: &[ContractFunctionProfile]) -> (r: Vec<String>)
    ensures
        string_views(r@) == logging_functions(fs@),
{
    let mut out: Vec<String> = Vec::new();
    let mut i: usize = 0;
    while i < fs.len()
        invariant
            i <= fs@.len(),
            string_views(out@) == logging_functions(fs@.take(i as int)),
        decreases fs@.len() - i,
    {
        assert(fs@.take(i + 1).drop_last() =~= fs@.take(i as int));
        if label_count(&fs[i].import_labels, &fs[i].import_calls, "log_from_linear_memory") > 0 {
            let ghost before = out@;
            let n = to_owned_string(fs[i].name.as_str());
            out.push(n);
            proof {
                crate::text::lemma_string_views_push(before, n);
            }
        }
        i += 1;
    }
    assert(fs@.take(i as int) =~= fs@);
    out
}

/// The size suggestions (`GAS-110`, `GAS-111`), in rule order.
pub fn size_rules(m: &ModuleSummary, fs: &[ContractFunctionProfile], size_bytes: u64, fees: &FeeSchedule) -> (r: Vec<
    Suggestion,
>)
    ensures
        suggestion_views(r@) == size_spec(*m, fs@, size_bytes, *fees),
{
    let mut out: Vec<Suggestion> = Vec::new();
    assert(suggestion_views(out@) =~= Seq::<SuggestionView>::empty());
    if m.strippable_custom_bytes > 0 {
        let savings = upload_savings(size_bytes, m.strippable_custom_bytes as u64, fees);
        let names = strippable_listing(&m.custom_sections);
        let severity = if m.strippable_custom_bytes >= 4 * 1024 {
            FindingSeverity::Medium
        } else {
            FindingSeverity::Low
        };
        let mut title = decimal_string(m.strippable_custom_bytes as u64);
        push_str(&mut title, " bytes of non-runtime custom sections");
        let mut evidence = to_owned_string("strippable sections: ");
        push_str(&mut evidence, join(&names, ", ").as_str());
        let s = make_suggestion(
            "GAS-110",
            severity,
            "size",
            None,
            title,
            evidence,
            REC_STRIP,
            Basis::Certain,
            Some(savings),
        );
        push_view(&mut out, s);
    }
    let ghost first = suggestion_views(out@);
    let log_fns = logging_listing(fs);
    if log_fns.len() > 0 {
        let mut evidence = to_owned_string("log_from_linear_memory reachable from: ");
        push_str(&mut evidence, join(&log_fns, ", ").as_str());
        let s = make_suggestion(
            "GAS-111",
            FindingSeverity::Medium,
            "size",
            None,
            to_owned_string("Debug logging is compiled in"),
            evidence,
            REC_DEBUG_LOG,
            Basis::Static,
            None,
        );
        push_view(&mut out, s);
    }
    assert(suggestion_views(out@) =~= size_spec(*m, fs@, size_bytes, *fees));
    out
}

} // verus!
