//! Soroban resource fee model.
//!
//! A Soroban transaction pays for several independent resources: CPU
//! instructions, ledger entries read and written, bytes read and written,
//! contract event bytes and the size of the transaction itself (bandwidth and
//! history). [`compute_resource_fee`] follows the host's
//! `compute_transaction_resource_fee`, including its round-up per-increment
//! arithmetic, so a breakdown computed from simulated resources matches what
//! the network charges for the same inputs.

use vstd::prelude::*;
use crate::text::to_owned_string;

verus! {

/// `INSTRUCTIONS_INCREMENT` in soroban-env-host.
pub const INSTRUCTIONS_INCREMENT: u64 = 10_000;

/// `DATA_SIZE_1KB_INCREMENT` in soroban-env-host.
pub const DATA_SIZE_1KB_INCREMENT: u64 = 1_024;

/// `TX_BASE_RESULT_SIZE` in soroban-env-host (history size overhead).
pub const TX_BASE_RESULT_SIZE: u64 = 300;

/// Approximate envelope overhead of an `UploadContractWasm` transaction on
/// top of the Wasm bytes.
pub const UPLOAD_TX_OVERHEAD_BYTES: u64 = 400;

/// Approximate ledger-entry overhead of a `ContractCode` entry on top of the
/// Wasm bytes.
pub const CONTRACT_CODE_ENTRY_OVERHEAD_BYTES: u64 = 150;

/// Per-resource fee rates (stroops).
#[derive(Debug, Clone, PartialEq, Eq)]
pub struct FeeSchedule {
    /// Fee per 10,000 CPU instructions.
    pub fee_per_instruction_increment: u64,
    /// Fee per ledger entry read (write entries are also charged as reads).
    pub fee_per_read_entry: u64,
    /// Fee per ledger entry written.
    pub fee_per_write_entry: u64,
    /// Fee per 1 KB read from the ledger.
    pub fee_per_read_1kb: u64,
    /// Fee per 1 KB written to the ledger.
    pub fee_per_write_1kb: u64,
    /// Fee per 1 KB written to history (transaction size + result).
    pub fee_per_historical_1kb: u64,
    /// Fee per 1 KB of contract events (refundable).
    pub fee_per_contract_event_1kb: u64,
    /// Fee per 1 KB of transaction size (bandwidth).
    pub fee_per_transaction_size_1kb: u64,
    /// Where these rates come from, shown in reports.
    pub source: String,
}

/// Text naming the built-in rates.
pub open spec fn default_fee_source() -> Seq<char> {
    "built-in mainnet-like defaults (override with --fee-config)"@
}

impl Default for FeeSchedule {
    fn default() -> (r: Self)
        ensures
            r.fee_per_instruction_increment == 25,
            r.fee_per_read_entry == 6_250,
            r.fee_per_write_entry == 10_000,
            r.fee_per_read_1kb == 1_786,
            r.fee_per_write_1kb == 11_800,
            r.fee_per_historical_1kb == 16_235,
            r.fee_per_contract_event_1kb == 10_000,
            r.fee_per_transaction_size_1kb == 1_624,
            r.source@ == default_fee_source(),
    {
        FeeSchedule {
            fee_per_instruction_increment: 25,
            fee_per_read_entry: 6_250,
            fee_per_write_entry: 10_000,
            fee_per_read_1kb: 1_786,
            fee_per_write_1kb: 11_800,
            fee_per_historical_1kb: 16_235,
            fee_per_contract_event_1kb: 10_000,
            fee_per_transaction_size_1kb: 1_624,
            source: to_owned_string("built-in mainnet-like defaults (override with --fee-config)"),
        }
    }
}

/// Per-transaction resource limits (network configuration).
#[derive(Debug, Clone, PartialEq, Eq)]
pub struct TxLimits {
    pub max_instructions: u64,
    pub max_memory_bytes: u64,
    pub max_read_entries: u64,
    pub max_write_entries: u64,
    pub max_read_bytes: u64,
    pub max_write_bytes: u64,
    pub max_contract_events_bytes: u64,
    pub max_tx_size_bytes: u64,
}

impl Default for TxLimits {
    fn default() -> (r: Self)
        ensures
            r.max_instructions == 100_000_000,
            r.max_memory_bytes == 40 * 1024 * 1024,
            r.max_read_entries == 40,
            r.max_write_entries == 25,
            r.max_read_bytes == 200 * 1024,
            r.max_write_bytes == 129 * 1024,
            r.max_contract_events_bytes == 8_198,
            r.max_tx_size_bytes == 129 * 1024,
    {
        TxLimits {
            max_instructions: 100_000_000,
            max_memory_bytes: 40 * 1024 * 1024,
            max_read_entries: 40,
            max_write_entries: 25,
            max_read_bytes: 200 * 1024,
            max_write_bytes: 129 * 1024,
            max_contract_events_bytes: 8_198,
            max_tx_size_bytes: 129 * 1024,
        }
    }
}

/// Fee rates plus limits.
#[derive(Debug, Clone, PartialEq, Eq)]
pub struct NetworkFeeConfig {
    pub fees: FeeSchedule,
    pub limits: TxLimits,
}

impl Default for NetworkFeeConfig {
    fn default() -> (r: Self)
        ensures
            r.fees.fee_per_read_entry == 6_250,
            r.fees.fee_per_write_1kb == 11_800,
            r.fees.source@ == default_fee_source(),
            r.limits.max_instructions == 100_000_000,
    {
        NetworkFeeConfig { fees: FeeSchedule::default(), limits: TxLimits::default() }
    }
}

/// Resources consumed (or declared) by one invocation.
#[derive(Debug, Clone, Default, PartialEq, Eq)]
pub struct ResourceUsage {
    pub instructions: u64,
    /// Memory high-water mark, when the source reported it.
    pub memory_bytes: Option<u64>,
    pub read_entries: u64,
    pub write_entries: u64,
    pub read_bytes: u64,
    pub write_bytes: u64,
    pub contract_events_bytes: u64,
    pub transaction_size_bytes: u64,
}

/// Fee attributed to each resource, in stroops.
#[derive(Debug, Clone, Default, PartialEq, Eq)]
pub struct FeeBreakdown {
    pub cpu: u64,
    pub read_entries: u64,
    pub write_entries: u64,
    pub read_bytes: u64,
    pub write_bytes: u64,
    pub historical: u64,
    pub bandwidth: u64,
    /// Refundable: charged up front, refunded if unused.
    pub events: u64,
    pub non_refundable_total: u64,
    pub total: u64,
}

/// `(label, stroops)` for every component, in report order.
pub open spec fn components_spec(b: FeeBreakdown) -> Seq<(&'static str, u64)> {
    seq![
        ("cpu", b.cpu),
        ("read_entries", b.read_entries),
        ("write_entries", b.write_entries),
        ("read_bytes", b.read_bytes),
        ("write_bytes", b.write_bytes),
        ("historical", b.historical),
        ("bandwidth", b.bandwidth),
        ("events", b.events),
    ]
}

/// `c[k]` is the last component with the largest positive fee.
pub open spec fn is_dominant(c: Seq<(&'static str, u64)>, k: int) -> bool {
    &&& 0 <= k < c.len()
    &&& c[k].1 > 0
    &&& forall|j: int| 0 <= j < c.len() ==> #[trigger] c[j].1 <= c[k].1
    &&& forall|j: int| k < j < c.len() ==> #[trigger] c[j].1 < c[k].1
}

impl FeeBreakdown {
    /// `(label, stroops)` for every component, in a stable order.
    pub fn components(&self) -> (r: Vec<(&'static str, u64)>)
        ensures
            r@ == components_spec(*self),
    {
        let r = vec![
            ("cpu", self.cpu),
            ("read_entries", self.read_entries),
            ("write_entries", self.write_entries),
            ("read_bytes", self.read_bytes),
            ("write_bytes", self.write_bytes),
            ("historical", self.historical),
            ("bandwidth", self.bandwidth),
            ("events", self.events),
        ];
        assert(r@ =~= components_spec(*self));
        r
    }

    /// The component with the largest share (the last one among equals), if
    /// any fee was charged.
    pub fn dominant(&self) -> (r: Option<(&'static str, u64)>)
        ensures
            match r {
                Some(d) => exists|k: int|
                    is_dominant(components_spec(*self), k) && components_spec(*self)[k] == d,
                None => forall|j: int|
                    0 <= j < components_spec(*self).len() ==> #[trigger] components_spec(
                        *self,
                    )[j].1 == 0,
            },
    {
        let c = self.components();
        let ghost cs = components_spec(*self);
        let mut best: Option<usize> = None;
        let mut i: usize = 0;
        while i < c.len()
            invariant
                c@ == cs,
                i <= c@.len(),
                match best {
                    Some(k) => k < i && cs[k as int].1 > 0 && (forall|j: int|
                        0 <= j < i ==> #[trigger] cs[j].1 <= cs[k as int].1) && (forall|j: int|
                        k < j < i ==> #[trigger] cs[j].1 < cs[k as int].1),
                    None => forall|j: int| 0 <= j < i ==> #[trigger] cs[j].1 == 0,
                },
            decreases c@.len() - i,
        {
            let v = c[i].1;
            if v > 0 {
                match best {
                    None => {
                        best = Some(i);
                    },
                    Some(k) => {
                        if v >= c[k].1 {
                            best = Some(i);
                        }
                    },
                }
            }
            i += 1;
        }
        match best {
            Some(k) => {
                assert(is_dominant(cs, k as int));
                Some(c[k])
            },
            None => None,
        }
    }
}

/// `min(a + b, u64::MAX)`.
pub open spec fn sat_add_spec(a: u64, b: u64) -> u64 {
    if a + b > u64::MAX {
        u64::MAX
    } else {
        (a + b) as u64
    }
}

/// `min(a * b, u64::MAX)`.
pub open spec fn sat_mul_spec(a: u64, b: u64) -> u64 {
    if a * b > u64::MAX {
        u64::MAX
    } else {
        (a * b) as u64
    }
}

/// `u64::saturating_add`.
pub fn sat_add(a: u64, b: u64) -> (r: u64)
    ensures
        r == sat_add_spec(a, b),
{
    match a.checked_add(b) {
        Some(v) => v,
        None => u64::MAX,
    }
}

/// `u64::saturating_mul`.
pub fn sat_mul(a: u64, b: u64) -> (r: u64)
    ensures
        r == sat_mul_spec(a, b),
{
    match a.checked_mul(b) {
        Some(v) => v,
        None => u64::MAX,
    }
}

/// `ceil(p / i)` for a divisor `i >= 1`.
pub open spec fn ceil_div(p: u64, i: u64) -> u64
    recommends
        i >= 1,
{
    (p / i + if p % i != 0 {
        1u64
    } else {
        0u64
    }) as u64
}

/// Fee for `value` units at `rate` per `increment` units, rounded up; the
/// product saturates at `u64::MAX` and an increment of 0 counts as 1.
pub open spec fn per_increment_spec(value: u64, rate: u64, increment: u64) -> u64 {
    ceil_div(sat_mul_spec(value, rate), if increment >= 1 { increment } else { 1 })
}

/// Round-up per-increment pricing (the host's fee arithmetic).
pub fn per_increment(value: u64, rate: u64, increment: u64) -> (r: u64)
    ensures
        r == per_increment_spec(value, rate, increment),
{
    let product = sat_mul(value, rate);
    let inc = if increment >= 1 {
        increment
    } else {
        1
    };
    let q = product / inc;
    let extra: u64 = if product % inc != 0 {
        1
    } else {
        0
    };
    proof {
        if inc > 1 {
            assert(product / inc <= product / 2) by (nonlinear_arith)
                requires
                    inc >= 2,
            ;
        }
    }
    q + extra
}

/// The fee breakdown of `usage` under `fees`.
pub open spec fn resource_fee_spec(usage: ResourceUsage, fees: FeeSchedule) -> FeeBreakdown {
    let cpu = per_increment_spec(
        usage.instructions,
        fees.fee_per_instruction_increment,
        INSTRUCTIONS_INCREMENT,
    );
    let read_entries = sat_mul_spec(
        fees.fee_per_read_entry,
        sat_add_spec(usage.read_entries, usage.write_entries),
    );
    let write_entries = sat_mul_spec(fees.fee_per_write_entry, usage.write_entries);
    let read_bytes = per_increment_spec(
        usage.read_bytes,
        fees.fee_per_read_1kb,
        DATA_SIZE_1KB_INCREMENT,
    );
    let write_bytes = per_increment_spec(
        usage.write_bytes,
        fees.fee_per_write_1kb,
        DATA_SIZE_1KB_INCREMENT,
    );
    let historical = per_increment_spec(
        sat_add_spec(usage.transaction_size_bytes, TX_BASE_RESULT_SIZE),
        fees.fee_per_historical_1kb,
        DATA_SIZE_1KB_INCREMENT,
    );
    let bandwidth = per_increment_spec(
        usage.transaction_size_bytes,
        fees.fee_per_transaction_size_1kb,
        DATA_SIZE_1KB_INCREMENT,
    );
    let events = per_increment_spec(
        usage.contract_events_bytes,
        fees.fee_per_contract_event_1kb,
        DATA_SIZE_1KB_INCREMENT,
    );
    let non_refundable_total = sat_add_spec(
        sat_add_spec(
            sat_add_spec(
                sat_add_spec(sat_add_spec(sat_add_spec(cpu, read_entries), write_entries), read_bytes),
                write_bytes,
            ),
            historical,
        ),
        bandwidth,
    );
    FeeBreakdown {
        cpu,
        read_entries,
        write_entries,
        read_bytes,
        write_bytes,
        historical,
        bandwidth,
        events,
        non_refundable_total,
        total: sat_add_spec(non_refundable_total, events),
    }
}

/// Compute the resource fee for `usage` under `fees`, following the host's
/// `compute_transaction_resource_fee`.
pub fn compute_resource_fee(usage: &ResourceUsage, fees: &FeeSchedule) -> (r: FeeBreakdown)
    ensures
        r == resource_fee_spec(*usage, *fees),
{
    let cpu = per_increment(
        usage.instructions,
        fees.fee_per_instruction_increment,
        INSTRUCTIONS_INCREMENT,
    );
    let read_entries = sat_mul(
        fees.fee_per_read_entry,
        sat_add(usage.read_entries, usage.write_entries),
    );
    let write_entries = sat_mul(fees.fee_per_write_entry, usage.write_entries);
    let read_bytes = per_increment(usage.read_bytes, fees.fee_per_read_1kb, DATA_SIZE_1KB_INCREMENT);
    let write_bytes = per_increment(
        usage.write_bytes,
        fees.fee_per_write_1kb,
        DATA_SIZE_1KB_INCREMENT,
    );
    let historical = per_increment(
        sat_add(usage.transaction_size_bytes, TX_BASE_RESULT_SIZE),
        fees.fee_per_historical_1kb,
        DATA_SIZE_1KB_INCREMENT,
    );
    let bandwidth = per_increment(
        usage.transaction_size_bytes,
        fees.fee_per_transaction_size_1kb,
        DATA_SIZE_1KB_INCREMENT,
    );
    let events = per_increment(
        usage.contract_events_bytes,
        fees.fee_per_contract_event_1kb,
        DATA_SIZE_1KB_INCREMENT,
    );
    let non_refundable_total = sat_add(
        sat_add(
            sat_add(
                sat_add(sat_add(sat_add(cpu, read_entries), write_entries), read_bytes),
                write_bytes,
            ),
            historical,
        ),
        bandwidth,
    );
    FeeBreakdown {
        cpu,
        read_entries,
        write_entries,
        read_bytes,
        write_bytes,
        historical,
        bandwidth,
        events,
        non_refundable_total,
        total: sat_add(non_refundable_total, events),
    }
}

/// Resources modelled for uploading `wasm_len` bytes of code.
pub open spec fn upload_usage(wasm_len: u64) -> ResourceUsage {
    ResourceUsage {
        instructions: 0,
        memory_bytes: None,
        read_entries: 0,
        write_entries: 1,
        read_bytes: 0,
        write_bytes: sat_add_spec(wasm_len, CONTRACT_CODE_ENTRY_OVERHEAD_BYTES),
        contract_events_bytes: 0,
        transaction_size_bytes: sat_add_spec(wasm_len, UPLOAD_TX_OVERHEAD_BYTES),
    }
}

/// Model the resource fee of uploading `wasm_len` bytes of code: one new
/// `ContractCode` write entry, the code bytes written to the ledger, and the
/// code bytes carried in the transaction envelope (bandwidth + history).
/// CPU for parsing and the initial rent are excluded, so this is a lower
/// bound that is exactly proportional to size.
pub fn estimate_upload_fee(wasm_len: u64, fees: &FeeSchedule) -> (r: FeeBreakdown)
    ensures
        r == resource_fee_spec(upload_usage(wasm_len), *fees),
        r.write_bytes == per_increment_spec(
            sat_add_spec(wasm_len, CONTRACT_CODE_ENTRY_OVERHEAD_BYTES),
            fees.fee_per_write_1kb,
            DATA_SIZE_1KB_INCREMENT,
        ),
        r.bandwidth == per_increment_spec(
            sat_add_spec(wasm_len, UPLOAD_TX_OVERHEAD_BYTES),
            fees.fee_per_transaction_size_1kb,
            DATA_SIZE_1KB_INCREMENT,
        ),
        r.write_entries == fees.fee_per_write_entry,
        r.read_entries == fees.fee_per_read_entry,
        r.cpu == 0 && r.read_bytes == 0 && r.events == 0,
{
    proof {
        law_upload_fee_charges_code_bytes(wasm_len, *fees);
    }
    let usage = ResourceUsage {
        instructions: 0,
        memory_bytes: None,
        read_entries: 0,
        write_entries: 1,
        read_bytes: 0,
        write_bytes: sat_add(wasm_len, CONTRACT_CODE_ENTRY_OVERHEAD_BYTES),
        contract_events_bytes: 0,
        transaction_size_bytes: sat_add(wasm_len, UPLOAD_TX_OVERHEAD_BYTES),
    };
    compute_resource_fee(&usage, fees)
}

/// Saving of removing `removed_bytes` from a `wasm_len` byte module.
pub open spec fn upload_savings_spec(wasm_len: u64, removed_bytes: u64, fees: FeeSchedule) -> u64 {
    let before = resource_fee_spec(upload_usage(wasm_len), fees).total;
    let after_len: u64 = if removed_bytes <= wasm_len {
        (wasm_len - removed_bytes) as u64
    } else {
        0
    };
    let after = resource_fee_spec(upload_usage(after_len), fees).total;
    if before >= after {
        (before - after) as u64
    } else {
        0
    }
}

/// Upload-fee savings from removing `removed_bytes` from a `wasm_len` module.
pub fn upload_savings(wasm_len: u64, removed_bytes: u64, fees: &FeeSchedule) -> (r: u64)
    ensures
        r == upload_savings_spec(wasm_len, removed_bytes, *fees),
{
    let before = estimate_upload_fee(wasm_len, fees).total;
    let after = estimate_upload_fee(wasm_len.saturating_sub(removed_bytes), fees).total;
    before.saturating_sub(after)
}

// ── Laws ─────────────────────────────────────────────────────────────────────

/// Rounded-up division never decreases when the dividend grows.
pub proof fn lemma_ceil_div_monotone(p1: u64, p2: u64, i: u64)
    requires
        p1 <= p2,
        i >= 1,
    ensures
        ceil_div(p1, i) <= ceil_div(p2, i),
{
    let q1 = p1 / i;
    let r1 = p1 % i;
    let q2 = p2 / i;
    let r2 = p2 % i;
    assert(p1 == q1 * i + r1 && 0 <= r1 < i) by (nonlinear_arith)
        requires
            q1 == p1 / i,
            r1 == p1 % i,
            i >= 1,
    ;
    assert(p2 == q2 * i + r2 && 0 <= r2 < i) by (nonlinear_arith)
        requires
            q2 == p2 / i,
            r2 == p2 % i,
            i >= 1,
    ;
    assert(q1 <= q2) by (nonlinear_arith)
        requires
            p1 <= p2,
            q1 == p1 / i,
            q2 == p2 / i,
            i >= 1,
    ;
    if r1 != 0 {
        assert(q1 < 0xffff_ffff_ffff_ffff) by (nonlinear_arith)
            requires
                p1 == q1 * i + r1,
                0 < r1 < i,
                p1 <= 0xffff_ffff_ffff_ffff,
        ;
    }
    if r2 != 0 {
        assert(q2 < 0xffff_ffff_ffff_ffff) by (nonlinear_arith)
            requires
                p2 == q2 * i + r2,
                0 < r2 < i,
                p2 <= 0xffff_ffff_ffff_ffff,
        ;
    }
    if q1 == q2 {
        assert(r1 <= r2) by (nonlinear_arith)
            requires
                p1 == q1 * i + r1,
                p2 == q2 * i + r2,
                q1 == q2,
                p1 <= p2,
        ;
    } else {
        assert(q1 + 1 <= q2);
    }
}

/// Per-increment pricing is monotone in the priced quantity.
pub proof fn lemma_per_increment_monotone(v1: u64, v2: u64, rate: u64, increment: u64)
    requires
        v1 <= v2,
    ensures
        per_increment_spec(v1, rate, increment) <= per_increment_spec(v2, rate, increment),
{
    assert(v1 * rate <= v2 * rate) by (nonlinear_arith)
        requires
            v1 <= v2,
    ;
    let inc: u64 = if increment >= 1 {
        increment
    } else {
        1
    };
    lemma_ceil_div_monotone(sat_mul_spec(v1, rate), sat_mul_spec(v2, rate), inc);
}

/// The modelled upload fee never decreases as the module grows.
pub proof fn law_upload_fee_monotone(len1: u64, len2: u64, fees: FeeSchedule)
    requires
        len1 <= len2,
    ensures
        resource_fee_spec(upload_usage(len1), fees).total <= resource_fee_spec(
            upload_usage(len2),
            fees,
        ).total,
{
    let u1 = upload_usage(len1);
    let u2 = upload_usage(len2);
    lemma_per_increment_monotone(
        u1.write_bytes,
        u2.write_bytes,
        fees.fee_per_write_1kb,
        DATA_SIZE_1KB_INCREMENT,
    );
    lemma_per_increment_monotone(
        sat_add_spec(u1.transaction_size_bytes, TX_BASE_RESULT_SIZE),
        sat_add_spec(u2.transaction_size_bytes, TX_BASE_RESULT_SIZE),
        fees.fee_per_historical_1kb,
        DATA_SIZE_1KB_INCREMENT,
    );
    lemma_per_increment_monotone(
        u1.transaction_size_bytes,
        u2.transaction_size_bytes,
        fees.fee_per_transaction_size_1kb,
        DATA_SIZE_1KB_INCREMENT,
    );
}

/// Removing nothing saves nothing.
pub proof fn law_upload_savings_of_nothing_is_zero(wasm_len: u64, fees: FeeSchedule)
    ensures
        upload_savings_spec(wasm_len, 0, fees) == 0,
{
}

/// Savings never exceed the fee of the original upload.
pub proof fn law_upload_savings_bounded(wasm_len: u64, removed: u64, fees: FeeSchedule)
    ensures
        upload_savings_spec(wasm_len, removed, fees) <= resource_fee_spec(
            upload_usage(wasm_len),
            fees,
        ).total,
{
}

/// The total is the non-refundable part plus the refundable event fee
/// (saturating).
pub proof fn law_total_is_sum_of_parts(usage: ResourceUsage, fees: FeeSchedule)
    ensures
        resource_fee_spec(usage, fees).total == sat_add_spec(
            resource_fee_spec(usage, fees).non_refundable_total,
            resource_fee_spec(usage, fees).events,
        ),
{
}

/// Uploading code pays, per KB written to the ledger, for the code bytes
/// plus the fixed size of a code entry (saturating); per KB of the
/// transaction, for the code bytes plus the envelope overhead; and one
/// ledger-entry write. It pays no CPU, read or event fee.
pub proof fn law_upload_fee_charges_code_bytes(wasm_len: u64, fees: FeeSchedule)
    ensures
        resource_fee_spec(upload_usage(wasm_len), fees).write_bytes == per_increment_spec(
            if wasm_len + CONTRACT_CODE_ENTRY_OVERHEAD_BYTES <= u64::MAX {
                (wasm_len + CONTRACT_CODE_ENTRY_OVERHEAD_BYTES) as u64
            } else {
                u64::MAX
            },
            fees.fee_per_write_1kb,
            DATA_SIZE_1KB_INCREMENT,
        ),
        resource_fee_spec(upload_usage(wasm_len), fees).bandwidth == per_increment_spec(
            if wasm_len + UPLOAD_TX_OVERHEAD_BYTES <= u64::MAX {
                (wasm_len + UPLOAD_TX_OVERHEAD_BYTES) as u64
            } else {
                u64::MAX
            },
            fees.fee_per_transaction_size_1kb,
            DATA_SIZE_1KB_INCREMENT,
        ),
        resource_fee_spec(upload_usage(wasm_len), fees).historical == per_increment_spec(
            if wasm_len + UPLOAD_TX_OVERHEAD_BYTES + TX_BASE_RESULT_SIZE <= u64::MAX {
                (wasm_len + UPLOAD_TX_OVERHEAD_BYTES + TX_BASE_RESULT_SIZE) as u64
            } else {
                u64::MAX
            },
            fees.fee_per_historical_1kb,
            DATA_SIZE_1KB_INCREMENT,
        ),
        resource_fee_spec(upload_usage(wasm_len), fees).write_entries == fees.fee_per_write_entry,
        resource_fee_spec(upload_usage(wasm_len), fees).read_entries == fees.fee_per_read_entry,
        resource_fee_spec(upload_usage(wasm_len), fees).cpu == 0,
        resource_fee_spec(upload_usage(wasm_len), fees).read_bytes == 0,
        resource_fee_spec(upload_usage(wasm_len), fees).events == 0,
{
    assert(sat_add_spec(0, 1) == 1);
    assert(sat_mul_spec(fees.fee_per_read_entry, 1) == fees.fee_per_read_entry);
}

/// The ledger-write part of the upload fee grows with the code: each extra
/// KB of code, at a positive rate, adds at least that rate, as long as the
/// byte count and the product do not saturate.
pub proof fn law_upload_write_fee_grows_with_code(len1: u64, len2: u64, fees: FeeSchedule)
    requires
        len1 + DATA_SIZE_1KB_INCREMENT <= len2,
        len2 + CONTRACT_CODE_ENTRY_OVERHEAD_BYTES <= u64::MAX,
        (len2 + CONTRACT_CODE_ENTRY_OVERHEAD_BYTES) * fees.fee_per_write_1kb <= u64::MAX,
    ensures
        resource_fee_spec(upload_usage(len1), fees).write_bytes + fees.fee_per_write_1kb
            <= resource_fee_spec(upload_usage(len2), fees).write_bytes,
{
    let rate = fees.fee_per_write_1kb;
    let a = len1 + CONTRACT_CODE_ENTRY_OVERHEAD_BYTES;
    let b = len2 + CONTRACT_CODE_ENTRY_OVERHEAD_BYTES;
    assert(a * rate + 1024 * rate <= b * rate) by (nonlinear_arith)
        requires
            a + 1024 <= b,
    ;
    assert(a * rate <= b * rate) by (nonlinear_arith)
        requires
            a <= b,
    ;
    let pa = a * rate;
    let pb = b * rate;
    assert(sat_mul_spec(a as u64, rate) == pa);
    assert(sat_mul_spec(b as u64, rate) == pb);
    lemma_ceil_div_shift(pa, pb, rate as int);
}

/// Adding at least `k` increments of 1024 to the dividend adds at least `k`
/// to the rounded-up quotient.
proof fn lemma_ceil_div_shift(p1: int, p2: int, k: int)
    requires
        0 <= p1,
        p1 + 1024 * k <= p2,
        p2 <= u64::MAX,
        0 <= k,
    ensures
        ceil_div(p1 as u64, 1024) + k <= ceil_div(p2 as u64, 1024),
{
    let p3 = p1 + 1024 * k;
    assert(p3 / 1024 == p1 / 1024 + k && p3 % 1024 == p1 % 1024) by (nonlinear_arith)
        requires
            p3 == p1 + 1024 * k,
            0 <= p1,
            0 <= k,
    ;
    lemma_ceil_div_monotone(p3 as u64, p2 as u64, 1024);
}

} // verus!
