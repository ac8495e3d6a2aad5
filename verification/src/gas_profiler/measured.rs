//! Suggestions from measured invocations: a per-transaction limit close to
//! being hit, the resource that dominates the fee, event cost, archived
//! entries, and how far the fee model is from the simulated fee.
//!
//! Shares and percentages are exact ratios of integers: a share "at least
//! 50%" is `2 * part >= total`, and a percentage in a title is the ratio
//! rounded to the nearest whole percent, halves to even.

use vstd::prelude::*;
use crate::gas_profiler::fees::{sat_add, sat_add_spec};
use crate::gas_profiler::measure::{LimitUtilization, MeasuredInvocation, Utilization};
use crate::gas_profiler::suggest::{
    concat3, make_suggestion, push_view, suggestion_view, suggestion_views, Basis, FindingSeverity,
    Suggestion, SuggestionView,
};
use crate::text::{decimal, decimal_string, decimal_string_wide, push_str, string_of, to_owned_string};

verus! {

pub const REC_LIMIT: &'static str = "Close to a hard limit the transaction fails outright when inputs grow. Cap input sizes, paginate work across transactions, or reduce the dominant resource.";

pub const REC_WRITES: &'static str = "Reduce the number of entries written (pack fields updated together) and their size (smaller types, avoid rewriting unchanged data).";

pub const REC_READS: &'static str = "Each footprint entry is charged. Keep small, always-needed config in instance storage (loaded with the contract), and avoid reading entries the call does not use.";

pub const REC_CPU: &'static str = "Look at the static profile for loops and crypto calls in this function; prefer SDK host types and functions (Vec/Map/Bytes, crypto) over re-implementing them in Wasm; native host code is usually metered more cheaply than the equivalent interpreted Wasm.";

pub const REC_EVENTS: &'static str = "Keep topics short (Symbols, not Strings) and put bulky data in the body only when indexers need it.";

pub const REC_RESTORE: &'static str = "Restore costs an extra transaction. Extend TTLs of long-lived persistent entries proactively (e.g. `extend_ttl` with a threshold on access).";

pub const REC_ACCURACY: &'static str = "The simulated fee is authoritative. Pass `--fee-config` with the target network's current fee settings to align the per-resource breakdown (rent for new entries is not modelled).";

// ── Shares ───────────────────────────────────────────────────────────────────

/// `a` is a smaller share of its limit than `b` is of its own; a limit of 0
/// counts as a share of 0.
pub open spec fn use_below(a: Utilization, b: Utilization) -> bool {
    if b.limit == 0 {
        false
    } else if a.limit == 0 {
        b.used > 0
    } else {
        a.used * b.limit < b.used * a.limit
    }
}

/// The larger of two uses, the first on a tie.
pub open spec fn pick(a: (Seq<char>, Utilization), b: (Seq<char>, Utilization)) -> (Seq<char>, Utilization) {
    if use_below(a.1, b.1) {
        b
    } else {
        a
    }
}

/// The resource with the largest share of its limit: the first among
/// instructions, read entries, write entries, read bytes, write bytes,
/// events and (when known) memory that no later one exceeds.
pub open spec fn top_use(l: LimitUtilization) -> (Seq<char>, Utilization) {
    let s1 = pick(("instructions"@, l.instructions), ("read_entries"@, l.read_entries));
    let s2 = pick(s1, ("write_entries"@, l.write_entries));
    let s3 = pick(s2, ("read_bytes"@, l.read_bytes));
    let s4 = pick(s3, ("write_bytes"@, l.write_bytes));
    let s5 = pick(s4, ("events"@, l.events));
    match l.memory {
        Some(m) => pick(s5, ("memory"@, m)),
        None => s5,
    }
}

/// `num / den` as a percentage rounded to the nearest whole number, halves
/// to even.
pub open spec fn rounded_percent(num: nat, den: nat) -> nat {
    let q = num * 100 / den;
    let r = num * 100 % den;
    if 2 * r > den || (2 * r == den && q % 2 == 1) {
        q + 1
    } else {
        q
    }
}

proof fn lemma_product_fits(a: u64, b: u64)
    ensures
        (a as int) * (b as int) <= u128::MAX,
{
    assert((a as int) * (b as int) <= 0xffff_ffff_ffff_ffffint * 0xffff_ffff_ffff_ffffint) by (nonlinear_arith)
        requires
            a <= 0xffff_ffff_ffff_ffffu64,
            b <= 0xffff_ffff_ffff_ffffu64,
    ;
}

fn below(a: Utilization, b: Utilization) -> (r: bool)
    ensures
        r == use_below(a, b),
{
    if b.limit == 0 {
        false
    } else if a.limit == 0 {
        b.used > 0
    } else {
        proof {
            lemma_product_fits(a.used, b.limit);
            lemma_product_fits(b.used, a.limit);
        }
        (a.used as u128) * (b.limit as u128) < (b.used as u128) * (a.limit as u128)
    }
}

fn pick_exec(a: (&'static str, Utilization), b: (&'static str, Utilization)) -> (r: (&'static str, Utilization))
    ensures
        (r.0@, r.1) == pick((a.0@, a.1), (b.0@, b.1)),
{
    if below(a.1, b.1) {
        b
    } else {
        a
    }
}

/// The resource with the largest share of its limit (see `top_use`).
pub fn top_resource(l: &LimitUtilization) -> (r: (&'static str, Utilization))
    ensures
        (r.0@, r.1) == top_use(*l),
{
    let s1 = pick_exec(("instructions", l.instructions), ("read_entries", l.read_entries));
    let s2 = pick_exec(s1, ("write_entries", l.write_entries));
    let s3 = pick_exec(s2, ("read_bytes", l.read_bytes));
    let s4 = pick_exec(s3, ("write_bytes", l.write_bytes));
    let s5 = pick_exec(s4, ("events", l.events));
    match l.memory {
        Some(m) => pick_exec(s5, ("memory", m)),
        None => s5,
    }
}

/// The uses in report order: instructions, read entries, write entries,
/// read bytes, write bytes, events, then memory when known.
pub open spec fn uses_in_order(l: LimitUtilization) -> Seq<(Seq<char>, Utilization)> {
    let base = seq![
        ("instructions"@, l.instructions),
        ("read_entries"@, l.read_entries),
        ("write_entries"@, l.write_entries),
        ("read_bytes"@, l.read_bytes),
        ("write_bytes"@, l.write_bytes),
        ("events"@, l.events),
    ];
    match l.memory {
        Some(m) => base.push(("memory"@, m)),
        None => base,
    }
}

/// Index of the first use in `s` that is a smaller share than `x`, or the
/// length of `s`.
pub open spec fn rank_slot(s: Seq<(Seq<char>, Utilization)>, x: Utilization, i: int) -> int
    decreases s.len() - i,
{
    if i < 0 || i >= s.len() {
        s.len() as int
    } else if use_below(s[i].1, x) {
        i
    } else {
        rank_slot(s, x, i + 1)
    }
}

/// The uses ranked by share of their limit, largest first; uses with equal
/// shares keep report order.
pub open spec fn ranked_spec(s: Seq<(Seq<char>, Utilization)>) -> Seq<(Seq<char>, Utilization)>
    decreases s.len(),
{
    if s.len() == 0 {
        Seq::empty()
    } else {
        let r = ranked_spec(s.drop_last());
        r.insert(rank_slot(r, s.last().1, 0), s.last())
    }
}

/// Uses as plain values.
pub open spec fn use_views(v: Seq<(&'static str, Utilization)>) -> Seq<(Seq<char>, Utilization)> {
    v.map_values(|p: (&'static str, Utilization)| (p.0@, p.1))
}

proof fn lemma_rank_slot_bound(s: Seq<(Seq<char>, Utilization)>, x: Utilization, i: int)
    requires
        0 <= i <= s.len(),
    ensures
        i <= rank_slot(s, x, i) <= s.len(),
    decreases s.len() - i,
{
    if i < s.len() && !use_below(s[i].1, x) {
        lemma_rank_slot_bound(s, x, i + 1);
    }
}

proof fn lemma_ranked_len(s: Seq<(Seq<char>, Utilization)>)
    ensures
        ranked_spec(s).len() == s.len(),
    decreases s.len(),
{
    if s.len() > 0 {
        lemma_ranked_len(s.drop_last());
        lemma_rank_slot_bound(ranked_spec(s.drop_last()), s.last().1, 0);
    }
}

fn slot_of(v: &Vec<(&'static str, Utilization)>, x: Utilization) -> (r: usize)
    ensures
        r == rank_slot(use_views(v@), x, 0),
        r <= v@.len(),
{
    let ghost sv = use_views(v@);
    let mut i: usize = 0;
    while i < v.len()
        invariant
            i <= v@.len(),
            sv == use_views(v@),
            sv.len() == v@.len(),
            rank_slot(sv, x, 0) == rank_slot(sv, x, i as int),
        decreases v@.len() - i,
    {
        assert(sv[i as int].1 == v@[i as int].1);
        if below(v[i].1, x) {
            return i;
        }
        i += 1;
    }
    i
}

impl LimitUtilization {
    /// The uses ranked by share of their limit, largest first; uses with
    /// equal shares keep report order.
    pub fn ranked(&self) -> (r: Vec<(&'static str, Utilization)>)
        ensures
            use_views(r@) == ranked_spec(uses_in_order(*self)),
    {
        let mut order: Vec<(&'static str, Utilization)> = vec![
            ("instructions", self.instructions),
            ("read_entries", self.read_entries),
            ("write_entries", self.write_entries),
            ("read_bytes", self.read_bytes),
            ("write_bytes", self.write_bytes),
            ("events", self.events),
        ];
        match self.memory {
            Some(m) => order.push(("memory", m)),
            None => {},
        }
        let ghost all = use_views(order@);
        assert(all =~= uses_in_order(*self));
        let mut out: Vec<(&'static str, Utilization)> = Vec::new();
        let mut i: usize = 0;
        assert(all.take(0) =~= Seq::<(Seq<char>, Utilization)>::empty());
        assert(use_views(out@) =~= Seq::<(Seq<char>, Utilization)>::empty());
        while i < order.len()
            invariant
                i <= order@.len(),
                all == use_views(order@),
                all.len() == order@.len(),
                use_views(out@) == ranked_spec(all.take(i as int)),
            decreases order@.len() - i,
        {
            let x = order[i];
            let k = slot_of(&out, x.1);
            let ghost before = out@;
            out.insert(k, x);
            proof {
                let t = all.take(i + 1);
                assert(t.drop_last() =~= all.take(i as int));
                assert(t.last() == (x.0@, x.1));
                assert(use_views(out@) =~= use_views(before).insert(k as int, (x.0@, x.1)));
            }
            i += 1;
        }
        assert(all.take(i as int) =~= all);
        out
    }
}

/// The text of `rounded_percent(num, den)`.
fn percent_text(num: u64, den: u64) -> (r: String)
    requires
        den > 0,
    ensures
        r@ == decimal(rounded_percent(num as nat, den as nat)),
{
    let n: u128 = (num as u128) * 100;
    let d: u128 = den as u128;
    let q: u128 = n / d;
    let rem: u128 = n % d;
    let v: u128 = if 2 * rem > d || (2 * rem == d && q % 2 == 1) {
        q + 1
    } else {
        q
    };
    decimal_string_wide(v)
}

// ── Rules ────────────────────────────────────────────────────────────────────

/// `GAS-140`: the largest share of a limit is 70% or more (critical from
/// 90%).
pub open spec fn limit_rule_spec(m: MeasuredInvocation) -> Seq<SuggestionView> {
    let top = top_use(m.utilization);
    let u = top.1;
    if u.limit > 0 && u.used * 100 >= 70 * u.limit {
        seq![
            (
                "GAS-140"@,
                if u.used * 100 >= 90 * u.limit {
                    FindingSeverity::Critical
                } else {
                    FindingSeverity::High
                },
                "limits"@,
                Some(m.function@),
                "`"@ + m.function@ + "` uses "@ + decimal(rounded_percent(u.used as nat, u.limit as nat))
                    + "% of the per-transaction "@ + top.0 + " limit"@,
                "measured from "@ + m.source@,
                REC_LIMIT@,
                Basis::Measured,
                None,
            ),
        ]
    } else {
        Seq::empty()
    }
}

/// `GAS-141`, `GAS-142` or `GAS-143`: ledger writes, else ledger reads, else
/// CPU make up at least half of a positive model fee.
pub open spec fn share_rule_spec(m: MeasuredInvocation) -> Seq<SuggestionView> {
    let fee = m.model_fee;
    let writes = sat_add_spec(fee.write_entries, fee.write_bytes);
    let reads = sat_add_spec(fee.read_entries, fee.read_bytes);
    if fee.total == 0 {
        Seq::empty()
    } else if 2 * writes >= fee.total {
        seq![
            (
                "GAS-141"@,
                FindingSeverity::Medium,
                "fees"@,
                Some(m.function@),
                "Ledger writes are "@ + decimal(rounded_percent(writes as nat, fee.total as nat)) + "% of `"@
                    + m.function@ + "`'s resource fee"@,
                decimal(m.usage.write_entries as nat) + " write entries, "@ + decimal(
                    m.usage.write_bytes as nat,
                ) + " write bytes -> "@ + decimal(writes as nat) + " stroops of "@ + decimal(
                    fee.total as nat,
                ) + " (model)"@,
                REC_WRITES@,
                Basis::Measured,
                None,
            ),
        ]
    } else if 2 * reads >= fee.total {
        seq![
            (
                "GAS-142"@,
                FindingSeverity::Medium,
                "fees"@,
                Some(m.function@),
                "Ledger reads are "@ + decimal(rounded_percent(reads as nat, fee.total as nat)) + "% of `"@
                    + m.function@ + "`'s resource fee"@,
                decimal(m.usage.read_entries as nat) + " read-only + "@ + decimal(
                    m.usage.write_entries as nat,
                ) + " read-write entries, "@ + decimal(m.usage.read_bytes as nat) + " read bytes -> "@
                    + decimal(reads as nat) + " stroops of "@ + decimal(fee.total as nat) + " (model)"@,
                REC_READS@,
                Basis::Measured,
                None,
            ),
        ]
    } else if 2 * fee.cpu >= fee.total {
        seq![
            (
                "GAS-143"@,
                FindingSeverity::Medium,
                "cpu"@,
                Some(m.function@),
                "CPU is "@ + decimal(rounded_percent(fee.cpu as nat, fee.total as nat)) + "% of `"@
                    + m.function@ + "`'s resource fee"@,
                decimal(m.usage.instructions as nat) + " instructions -> "@ + decimal(fee.cpu as nat)
                    + " stroops of "@ + decimal(fee.total as nat) + " (model)"@,
                REC_CPU@,
                Basis::Measured,
                None,
            ),
        ]
    } else {
        Seq::empty()
    }
}

/// `GAS-144`: events make up at least a fifth of a positive model fee.
pub open spec fn events_rule_spec(m: MeasuredInvocation) -> Seq<SuggestionView> {
    let fee = m.model_fee;
    if fee.total > 0 && 5 * fee.events >= fee.total {
        seq![
            (
                "GAS-144"@,
                FindingSeverity::Low,
                "events"@,
                Some(m.function@),
                "Events are "@ + decimal(rounded_percent(fee.events as nat, fee.total as nat)) + "% of `"@
                    + m.function@ + "`'s resource fee"@,
                decimal(m.usage.contract_events_bytes as nat) + " event bytes -> "@ + decimal(
                    fee.events as nat,
                ) + " stroops (model)"@,
                REC_EVENTS@,
                Basis::Measured,
                None,
            ),
        ]
    } else {
        Seq::empty()
    }
}

/// `GAS-145`: the invocation touches archived entries.
pub open spec fn restore_rule_spec(m: MeasuredInvocation) -> Seq<SuggestionView> {
    if m.requires_restore {
        seq![
            (
                "GAS-145"@,
                FindingSeverity::Medium,
                "storage"@,
                Some(m.function@),
                "`"@ + m.function@ + "` touches archived entries"@,
                "simulation requires a restore transaction ("@ + decimal(
                    (match m.restore_fee_stroops {
                        Some(f) => f,
                        None => 0u64,
                    }) as nat,
                ) + " stroops)"@,
                REC_RESTORE@,
                Basis::Measured,
                None,
            ),
        ]
    } else {
        Seq::empty()
    }
}

/// The distance between two fees.
pub open spec fn fee_gap(a: u64, b: u64) -> nat {
    if a >= b {
        (a - b) as nat
    } else {
        (b - a) as nat
    }
}

/// `GAS-146`: the model fee is more than 25% away from a positive simulated
/// fee.
pub open spec fn accuracy_rule_spec(m: MeasuredInvocation, fee_source: Seq<char>) -> Seq<SuggestionView> {
    match m.reported_min_resource_fee {
        Some(reported) => {
            let model = m.model_fee.total;
            let gap = fee_gap(model, reported);
            if reported > 0 && 4 * gap > reported {
                seq![
                    (
                        "GAS-146"@,
                        FindingSeverity::Info,
                        "accuracy"@,
                        Some(m.function@),
                        "Fee model differs from simulation by "@ + decimal(
                            rounded_percent(gap, reported as nat),
                        ) + "% for `"@ + m.function@ + "`"@,
                        "simulated minResourceFee "@ + decimal(reported as nat) + " vs model "@ + decimal(
                            model as nat,
                        ) + " stroops ("@ + fee_source + ")"@,
                        REC_ACCURACY@,
                        Basis::Measured,
                        None,
                    ),
                ]
            } else {
                Seq::empty()
            }
        },
        None => Seq::empty(),
    }
}

/// The suggestions for one measurement, in rule order.
pub open spec fn measured_one_spec(m: MeasuredInvocation, fee_source: Seq<char>) -> Seq<SuggestionView> {
    limit_rule_spec(m) + share_rule_spec(m) + events_rule_spec(m) + restore_rule_spec(m)
        + accuracy_rule_spec(m, fee_source)
}

/// The suggestions for every measurement, in order.
pub open spec fn measured_spec(ms: Seq<MeasuredInvocation>, fee_source: Seq<char>) -> Seq<SuggestionView>
    decreases ms.len(),
{
    if ms.len() == 0 {
        Seq::empty()
    } else {
        measured_spec(ms.drop_last(), fee_source) + measured_one_spec(ms.last(), fee_source)
    }
}

/// `a + b + c + d + e` as one string.
fn concat5(a: &str, b: &str, c: &str, d: &str, e: &str) -> (r: String)
    ensures
        r@ == a@ + b@ + c@ + d@ + e@,
{
    let mut r = concat3(a, b, c);
    push_str(&mut r, d);
    push_str(&mut r, e);
    r
}

fn limit_rule(m: &MeasuredInvocation) -> (r: Option<Suggestion>)
    ensures
        match r {
            Some(x) => limit_rule_spec(*m) == seq![suggestion_view(x)],
            None => limit_rule_spec(*m) == Seq::<SuggestionView>::empty(),
        },
{
    let (name, u) = top_resource(&m.utilization);
    if u.limit > 0 && (u.used as u128) * 100 >= 70 * (u.limit as u128) {
        let severity = if (u.used as u128) * 100 >= 90 * (u.limit as u128) {
            FindingSeverity::Critical
        } else {
            FindingSeverity::High
        };
        let pct = percent_text(u.used, u.limit);
        let mut title = concat5("`", m.function.as_str(), "` uses ", pct.as_str(), "% of the per-transaction ");
        push_str(&mut title, name);
        push_str(&mut title, " limit");
        let mut evidence = to_owned_string("measured from ");
        push_str(&mut evidence, m.source.as_str());
        let s = make_suggestion(
            "GAS-140",
            severity,
            "limits",
            Some(m.function.as_str()),
            title,
            evidence,
            REC_LIMIT,
            Basis::Measured,
            None,
        );
        assert(limit_rule_spec(*m) =~= seq![suggestion_view(s)]);
        Some(s)
    } else {
        None
    }
}

fn share_rule(m: &MeasuredInvocation) -> (r: Option<Suggestion>)
    ensures
        match r {
            Some(x) => share_rule_spec(*m) == seq![suggestion_view(x)],
            None => share_rule_spec(*m) == Seq::<SuggestionView>::empty(),
        },
{
    let fee = &m.model_fee;
    let total = fee.total;
    if total == 0 {
        return None;
    }
    let writes = sat_add(fee.write_entries, fee.write_bytes);
    let reads = sat_add(fee.read_entries, fee.read_bytes);
    let ts = decimal_string(total);
    if 2 * (writes as u128) >= total as u128 {
        let pct = percent_text(writes, total);
        let title = concat5("Ledger writes are ", pct.as_str(), "% of `", m.function.as_str(), "`'s resource fee");
        let mut evidence = concat3(
            decimal_string(m.usage.write_entries).as_str(),
            " write entries, ",
            decimal_string(m.usage.write_bytes).as_str(),
        );
        push_str(&mut evidence, " write bytes -> ");
        push_str(&mut evidence, decimal_string(writes).as_str());
        push_str(&mut evidence, " stroops of ");
        push_str(&mut evidence, ts.as_str());
        push_str(&mut evidence, " (model)");
        let s = make_suggestion(
            "GAS-141",
            FindingSeverity::Medium,
            "fees",
            Some(m.function.as_str()),
            title,
            evidence,
            REC_WRITES,
            Basis::Measured,
            None,
        );
        assert(share_rule_spec(*m) =~= seq![suggestion_view(s)]);
        Some(s)
    } else if 2 * (reads as u128) >= total as u128 {
        let pct = percent_text(reads, total);
        let title = concat5("Ledger reads are ", pct.as_str(), "% of `", m.function.as_str(), "`'s resource fee");
        let mut evidence = concat3(
            decimal_string(m.usage.read_entries).as_str(),
            " read-only + ",
            decimal_string(m.usage.write_entries).as_str(),
        );
        push_str(&mut evidence, " read-write entries, ");
        push_str(&mut evidence, decimal_string(m.usage.read_bytes).as_str());
        push_str(&mut evidence, " read bytes -> ");
        push_str(&mut evidence, decimal_string(reads).as_str());
        push_str(&mut evidence, " stroops of ");
        push_str(&mut evidence, ts.as_str());
        push_str(&mut evidence, " (model)");
        let s = make_suggestion(
            "GAS-142",
            FindingSeverity::Medium,
            "fees",
            Some(m.function.as_str()),
            title,
            evidence,
            REC_READS,
            Basis::Measured,
            None,
        );
        assert(share_rule_spec(*m) =~= seq![suggestion_view(s)]);
        Some(s)
    } else if 2 * (fee.cpu as u128) >= total as u128 {
        let pct = percent_text(fee.cpu, total);
        let title = concat5("CPU is ", pct.as_str(), "% of `", m.function.as_str(), "`'s resource fee");
        let mut evidence = concat3(
            decimal_string(m.usage.instructions).as_str(),
            " instructions -> ",
            decimal_string(fee.cpu).as_str(),
        );
        push_str(&mut evidence, " stroops of ");
        push_str(&mut evidence, ts.as_str());
        push_str(&mut evidence, " (model)");
        let s = make_suggestion(
            "GAS-143",
            FindingSeverity::Medium,
            "cpu",
            Some(m.function.as_str()),
            title,
            evidence,
            REC_CPU,
            Basis::Measured,
            None,
        );
        assert(share_rule_spec(*m) =~= seq![suggestion_view(s)]);
        Some(s)
    } else {
        None
    }
}

fn events_rule(m: &MeasuredInvocation) -> (r: Option<Suggestion>)
    ensures
        match r {
            Some(x) => events_rule_spec(*m) == seq![suggestion_view(x)],
            None => events_rule_spec(*m) == Seq::<SuggestionView>::empty(),
        },
{
    let fee = &m.model_fee;
    if fee.total > 0 && 5 * (fee.events as u128) >= fee.total as u128 {
        let pct = percent_text(fee.events, fee.total);
        let title = concat5("Events are ", pct.as_str(), "% of `", m.function.as_str(), "`'s resource fee");
        let mut evidence = concat3(
            decimal_string(m.usage.contract_events_bytes).as_str(),
            " event bytes -> ",
            decimal_string(fee.events).as_str(),
        );
        push_str(&mut evidence, " stroops (model)");
        let s = make_suggestion(
            "GAS-144",
            FindingSeverity::Low,
            "events",
            Some(m.function.as_str()),
            title,
            evidence,
            REC_EVENTS,
            Basis::Measured,
            None,
        );
        assert(events_rule_spec(*m) =~= seq![suggestion_view(s)]);
        Some(s)
    } else {
        None
    }
}

fn restore_rule(m: &MeasuredInvocation) -> (r: Option<Suggestion>)
    ensures
        match r {
            Some(x) => restore_rule_spec(*m) == seq![suggestion_view(x)],
            None => restore_rule_spec(*m) == Seq::<SuggestionView>::empty(),
        },
{
    if m.requires_restore {
        let fee: u64 = match m.restore_fee_stroops {
            Some(f) => f,
            None => 0,
        };
        let title = concat3("`", m.function.as_str(), "` touches archived entries");
        let evidence = concat3(
            "simulation requires a restore transaction (",
            decimal_string(fee).as_str(),
            " stroops)",
        );
        let s = make_suggestion(
            "GAS-145",
            FindingSeverity::Medium,
            "storage",
            Some(m.function.as_str()),
            title,
            evidence,
            REC_RESTORE,
            Basis::Measured,
            None,
        );
        assert(restore_rule_spec(*m) =~= seq![suggestion_view(s)]);
        Some(s)
    } else {
        None
    }
}

fn accuracy_rule(m: &MeasuredInvocation, fee_source: &str) -> (r: Option<Suggestion>)
    ensures
        match r {
            Some(x) => accuracy_rule_spec(*m, fee_source@) == seq![suggestion_view(x)],
            None => accuracy_rule_spec(*m, fee_source@) == Seq::<SuggestionView>::empty(),
        },
{
    match m.reported_min_resource_fee {
        Some(reported) => {
            let model = m.model_fee.total;
            let gap: u64 = if model >= reported {
                model - reported
            } else {
                reported - model
            };
            if reported > 0 && 4 * (gap as u128) > reported as u128 {
                let pct = percent_text(gap, reported);
                let title = concat5(
                    "Fee model differs from simulation by ",
                    pct.as_str(),
                    "% for `",
                    m.function.as_str(),
                    "`",
                );
                let mut evidence = concat3(
                    "simulated minResourceFee ",
                    decimal_string(reported).as_str(),
                    " vs model ",
                );
                push_str(&mut evidence, decimal_string(model).as_str());
                push_str(&mut evidence, " stroops (");
                push_str(&mut evidence, fee_source);
                push_str(&mut evidence, ")");
                let s = make_suggestion(
                    "GAS-146",
                    FindingSeverity::Info,
                    "accuracy",
                    Some(m.function.as_str()),
                    title,
                    evidence,
                    REC_ACCURACY,
                    Basis::Measured,
                    None,
                );
                assert(accuracy_rule_spec(*m, fee_source@) =~= seq![suggestion_view(s)]);
                Some(s)
            } else {
                None
            }
        },
        None => None,
    }
}

fn push_opt(out: &mut Vec<Suggestion>, s: Option<Suggestion>)
    ensures
        suggestion_views(final(out)@) == suggestion_views(old(out)@) + match s {
            Some(x) => seq![suggestion_view(x)],
            None => Seq::<SuggestionView>::empty(),
        },
{
    match s {
        Some(x) => push_view(out, x),
        None => {
            assert(suggestion_views(out@) =~= suggestion_views(out@) + Seq::<SuggestionView>::empty());
        },
    }
}

#[verifier::rlimit(40)]
fn measured_one(m: &MeasuredInvocation, fee_source: &str, out: &mut Vec<Suggestion>)
    ensures
        suggestion_views(final(out)@) == suggestion_views(old(out)@) + measured_one_spec(*m, fee_source@),
{
    let ghost before = suggestion_views(out@);
    let ghost s1 = limit_rule_spec(*m);
    let ghost s2 = share_rule_spec(*m);
    let ghost s3 = events_rule_spec(*m);
    let ghost s4 = restore_rule_spec(*m);
    let ghost s5 = accuracy_rule_spec(*m, fee_source@);
    push_opt(out, limit_rule(m));
    assert(suggestion_views(out@) == before + s1);
    push_opt(out, share_rule(m));
    assert(suggestion_views(out@) == before + s1 + s2);
    push_opt(out, events_rule(m));
    assert(suggestion_views(out@) == before + s1 + s2 + s3);
    push_opt(out, restore_rule(m));
    assert(suggestion_views(out@) == before + s1 + s2 + s3 + s4);
    push_opt(out, accuracy_rule(m, fee_source));
    assert(suggestion_views(out@) == before + s1 + s2 + s3 + s4 + s5);
    assert(measured_one_spec(*m, fee_source@) == s1 + s2 + s3 + s4 + s5);
    assert(before + s1 + s2 + s3 + s4 + s5 =~= before + (s1 + s2 + s3 + s4 + s5));
}

/// The rules on measured invocations, for each measurement in order:
/// `GAS-140` to `GAS-146`. `fee_source` names the fee rates the model used.
pub fn measured_rules(ms: &[MeasuredInvocation], fee_source: &str) -> (r: Vec<Suggestion>)
    ensures
        suggestion_views(r@) == measured_spec(ms@, fee_source@),
{
    let mut out: Vec<Suggestion> = Vec::new();
    let mut i: usize = 0;
    assert(suggestion_views(out@) =~= Seq::<SuggestionView>::empty());
    while i < ms.len()
        invariant
            i <= ms@.len(),
            suggestion_views(out@) == measured_spec(ms@.take(i as int), fee_source@),
        decreases ms@.len() - i,
    {
        let m = &ms[i];
        measured_one(m, fee_source, &mut out);
        proof {
            assert(ms@.take(i + 1).drop_last() =~= ms@.take(i as int));
            assert(ms@.take(i + 1).last() == *m);
        }
        i += 1;
    }
    assert(ms@.take(i as int) =~= ms@);
    out
}

} // verus!
