//! Gas profiling: host function table, resource fee model, Wasm decoding and
//! report helpers.

pub mod host_fns;
pub mod fees;
pub mod wasm;
pub mod builder;
pub mod callgraph;
pub mod suggest;
pub mod report;
pub mod summary;
pub mod measure;
pub mod measured;

use vstd::prelude::*;
use std::collections::BTreeMap;
use crate::gas_profiler::callgraph::{
    body_at, imported_of, keys_of, loop_functions, reachable, reachable_functions, runs_in_loop,
};
use crate::gas_profiler::host_fns::{category_weight, HostCategory};
use crate::gas_profiler::wasm::{count_of, decode, func_exports, is_wasm_spec, module_consistent, module_matches, decoded_state, decode_ok, Export, func_imports, DecodeError, FunctionBody, Import, WasmModule};
use crate::gas_profiler::fees::{estimate_upload_fee, resource_fee_spec, upload_usage, FeeBreakdown, FeeSchedule, NetworkFeeConfig};
use crate::gas_profiler::summary::{module_summary, summary_of, ModuleSummary};
use crate::gas_profiler::suggest::{
    compatibility_rules, compatibility_spec, execution_rules, execution_rules_spec, score, score_spec,
    size_rules, size_spec, sort_suggestions, suggestion_views, suggestions_sorted, Suggestion,
    law_storage_read_in_loop_is_reported, law_storage_write_in_loop_is_reported, loop_count,
    read_loop_view, write_loop_view, SuggestionView,
};
use crate::gas_profiler::measure::MeasuredInvocation;
use crate::gas_profiler::measured::{measured_rules, measured_spec};
use crate::security::analysis::{hex_encode, hex_lower, sha256, sha256_digest};
use crate::text::{lemma_seq_lt_asym, lemma_seq_lt_total, lemma_seq_lt_trans, seq_lt, str_lt, string_views, to_owned_string, push_str};

verus! {

broadcast use {vstd::std_specs::btree::group_btree_axioms, vstd::laws_cmp::group_laws_cmp};

/// Version of the gas profile report's schema.
pub const REPORT_SCHEMA_VERSION: u32 = 1;

/// Multiplier applied to host-call weights for call sites inside loops in the
/// static cost index (a loop body runs at least once and usually many times).
pub const LOOP_WEIGHT_MULTIPLIER: u64 = 10;


/// Static profile of one exported contract function, including everything it
/// can reach through direct calls.
#[derive(Debug, Clone, PartialEq)]
pub struct ContractFunctionProfile {
    pub name: String,
    pub func_index: u32,
    /// Instructions in the export's own body.
    pub own_instructions: u64,
    /// Functions reachable through direct calls (including itself).
    pub reachable_functions: usize,
    /// Instructions across all reachable function bodies, each counted once.
    pub reachable_instructions: u64,
    /// Host call sites reachable from this export, per imported function
    /// (indexed by function index).
    pub import_calls: Vec<u32>,
    /// Those of the call sites that execute inside a loop (directly, or
    /// because the function containing them runs inside a loop).
    pub import_calls_in_loops: Vec<u32>,
    /// The resource category of each imported function.
    pub import_categories: Vec<HostCategory>,
    /// The host function name of each imported function (`module.field`
    /// when it is not a known host function).
    pub import_labels: Vec<String>,
    pub loops: u32,
    pub max_loop_depth: u32,
    /// `call_indirect` sites reachable; their targets are not followed.
    pub indirect_call_sites: u32,
    /// Rejected features of the reachable bodies, sorted and without repeats.
    pub rejected_features: Vec<String>,
    /// Relative static cost used for ranking (see `cost_index`).
    pub cost_index: u64,
}

/// `a + b`, saturating at `cap`.
pub open spec fn sat(total: int, cap: int) -> int {
    if total > cap {
        cap
    } else {
        total
    }
}

/// A per-body quantity summed over the functions `ks`.
pub open spec fn body_sum(m: WasmModule, ks: Seq<u32>, q: spec_fn(FunctionBody) -> int) -> int
    decreases ks.len(),
{
    if ks.len() == 0 {
        0
    } else {
        body_sum(m, ks.drop_last(), q) + match body_at(m, ks.last()) {
            Some(f) => q(f),
            None => 0,
        }
    }
}

/// The largest loop nesting among the bodies of `ks` (0 when none).
pub open spec fn body_max_depth(m: WasmModule, ks: Seq<u32>) -> u32
    decreases ks.len(),
{
    if ks.len() == 0 {
        0
    } else {
        let rest = body_max_depth(m, ks.drop_last());
        match body_at(m, ks.last()) {
            Some(f) => if f.max_loop_depth > rest {
                f.max_loop_depth
            } else {
                rest
            },
            None => rest,
        }
    }
}

/// Call sites of import `i` over the bodies of `ks`; inside loops only when
/// `in_loops`, where a function that runs inside a loop contributes all its
/// call sites.
pub open spec fn import_sum(
    m: WasmModule,
    root: u32,
    ks: Seq<u32>,
    i: u32,
    in_loops: bool,
) -> int
    decreases ks.len(),
{
    if ks.len() == 0 {
        0
    } else {
        let x = ks.last();
        import_sum(m, root, ks.drop_last(), i, in_loops) + match body_at(m, x) {
            Some(f) => if !in_loops || runs_in_loop(m, root, x) {
                count_of(f.host_calls@, i) as int
            } else {
                count_of(f.host_calls_in_loops@, i) as int
            },
            None => 0,
        }
    }
}

/// The rejected features of the bodies of `ks`, in order (with repeats).
pub open spec fn rejected_of(m: WasmModule, ks: Seq<u32>) -> Seq<Seq<char>>
    decreases ks.len(),
{
    if ks.len() == 0 {
        Seq::empty()
    } else {
        rejected_of(m, ks.drop_last()) + match body_at(m, ks.last()) {
            Some(f) => string_views(f.rejected_features@),
            None => Seq::empty(),
        }
    }
}

/// `s` is strictly increasing in string order.
pub open spec fn strictly_sorted(s: Seq<Seq<char>>) -> bool {
    forall|i: int, j: int| 0 <= i < j < s.len() ==> seq_lt(#[trigger] s[i], #[trigger] s[j])
}

/// The label of an import: its host function name, or `module.field`.
pub open spec fn import_label(i: Import) -> Seq<char> {
    match i.host_name {
        Some(n) => n@,
        None => i.module@ + "."@ + i.field@,
    }
}


/// Inserts `x` into a strictly sorted list of strings, unless present.
pub(crate) fn insert_sorted(v: &mut Vec<String>, x: &str)
    requires
        strictly_sorted(string_views(old(v)@)),
    ensures
        strictly_sorted(string_views(final(v)@)),
        forall|s: Seq<char>|
            #![trigger string_views(final(v)@).contains(s)]
            #![trigger string_views(old(v)@).contains(s)]
            string_views(final(v)@).contains(s) <==> string_views(old(v)@).contains(s) || s == x@,
{
    let ghost ov = string_views(v@);
    let mut p: usize = 0;
    while p < v.len() && str_lt(v[p].as_str(), x)
        invariant
            ov == string_views(v@),
            p <= v@.len(),
            forall|i: int| 0 <= i < p ==> seq_lt(#[trigger] ov[i], x@),
        decreases v@.len() - p,
    {
        assert(ov[p as int] == v@[p as int]@);
        p += 1;
    }
    if p < v.len() {
        assert(ov[p as int] == v@[p as int]@);
        if crate::text::str_eq(v[p].as_str(), x) {
            assert(ov.contains(x@));
            return;
        }
        proof {
            lemma_seq_lt_total(ov[p as int], x@);
        }
    }
    let ghost pp = p as int;
    let item = to_owned_string(x);
    v.insert(p, item);
    proof {
        let nv = string_views(v@);
        assert(nv =~= ov.insert(pp, x@));
        assert forall|i: int, j: int| 0 <= i < j < nv.len() implies seq_lt(
            #[trigger] nv[i],
            #[trigger] nv[j],
        ) by {
            if j < pp {
                assert(nv[i] == ov[i] && nv[j] == ov[j]);
            } else if j == pp {
                assert(nv[i] == ov[i]);
            } else if i == pp {
                assert(nv[j] == ov[j - 1]);
                assert(seq_lt(x@, ov[pp]));
                if j - 1 > pp {
                    assert(seq_lt(ov[pp], ov[j - 1]));
                    lemma_seq_lt_trans(x@, ov[pp], ov[j - 1]);
                }
            } else if i < pp {
                assert(nv[i] == ov[i] && nv[j] == ov[j - 1]);
                if j - 1 >= pp {
                    assert(seq_lt(ov[i], x@));
                    assert(seq_lt(x@, ov[pp]));
                    lemma_seq_lt_trans(ov[i], x@, ov[pp]);
                    if j - 1 > pp {
                        lemma_seq_lt_trans(ov[i], ov[pp], ov[j - 1]);
                    }
                }
            } else {
                assert(nv[i] == ov[i - 1] && nv[j] == ov[j - 1]);
            }
        }
        assert forall|s: Seq<char>| nv.contains(s) <==> ov.contains(s) || s == x@ by {
            if nv.contains(s) {
                let t = choose|t: int| 0 <= t < nv.len() && nv[t] == s;
                if t < pp {
                    assert(ov[t] == s);
                } else if t > pp {
                    assert(ov[t - 1] == s);
                }
            }
            if ov.contains(s) {
                let t = choose|t: int| 0 <= t < ov.len() && ov[t] == s;
                if t < pp {
                    assert(nv[t] == s);
                } else {
                    assert(nv[t + 1] == s);
                }
            }
            if s == x@ {
                assert(nv[pp] == s);
            }
        }
    }
}


/// Every host category, in declaration order.
pub open spec fn all_categories() -> Seq<HostCategory> {
    seq![
        HostCategory::StorageRead,
        HostCategory::StorageWrite,
        HostCategory::StorageTtl,
        HostCategory::Deploy,
        HostCategory::CrossContract,
        HostCategory::Crypto,
        HostCategory::Auth,
        HostCategory::Event,
        HostCategory::Log,
        HostCategory::Serialization,
        HostCategory::Object,
        HostCategory::Context,
        HostCategory::Prng,
        HostCategory::Test,
        HostCategory::Unknown,
    ]
}

fn all_categories_exec() -> (r: Vec<HostCategory>)
    ensures
        r@ == all_categories(),
{
    let mut v: Vec<HostCategory> = Vec::new();
    v.push(HostCategory::StorageRead);
    v.push(HostCategory::StorageWrite);
    v.push(HostCategory::StorageTtl);
    v.push(HostCategory::Deploy);
    v.push(HostCategory::CrossContract);
    v.push(HostCategory::Crypto);
    v.push(HostCategory::Auth);
    v.push(HostCategory::Event);
    v.push(HostCategory::Log);
    v.push(HostCategory::Serialization);
    v.push(HostCategory::Object);
    v.push(HostCategory::Context);
    v.push(HostCategory::Prng);
    v.push(HostCategory::Test);
    v.push(HostCategory::Unknown);
    assert(v@ =~= all_categories());
    v
}

/// Call sites counted in `counts` for imports of category `c`.
pub open spec fn category_sum(cats: Seq<HostCategory>, counts: Seq<u32>, c: HostCategory) -> int
    decreases counts.len(),
{
    if counts.len() == 0 {
        0
    } else {
        let k = counts.len() - 1;
        category_sum(cats, counts.drop_last(), c) + if k < cats.len() && cats[k] == c {
            counts[k] as int
        } else {
            0
        }
    }
}

/// The weighted host call sites of the categories `cs`: for each, the
/// category's (saturated) site count in `counts` times its weight, and for
/// loop sites (`in_loops`) times `LOOP_WEIGHT_MULTIPLIER - 1` more, each
/// product saturating.
pub open spec fn weighted_sum(
    cats: Seq<HostCategory>,
    counts: Seq<u32>,
    cs: Seq<HostCategory>,
    in_loops: bool,
) -> int
    decreases cs.len(),
{
    if cs.len() == 0 {
        0
    } else {
        let c = cs.last();
        let n = sat(category_sum(cats, counts, c), u32::MAX as int);
        let w = sat(category_weight(c) * n, u64::MAX as int);
        let term = if in_loops {
            sat(w * (LOOP_WEIGHT_MULTIPLIER - 1), u64::MAX as int)
        } else {
            w
        };
        weighted_sum(cats, counts, cs.drop_last(), in_loops) + term
    }
}

/// Relative static cost: reachable instructions plus weighted host call
/// sites, with loop sites weighted `LOOP_WEIGHT_MULTIPLIER` times, saturating.
pub open spec fn cost_spec(p: ContractFunctionProfile) -> int {
    sat(
        p.reachable_instructions + weighted_sum(
            p.import_categories@,
            p.import_calls@,
            all_categories(),
            false,
        ) + weighted_sum(p.import_categories@, p.import_calls_in_loops@, all_categories(), true),
        u64::MAX as int,
    )
}

fn category_count(cats: &Vec<HostCategory>, counts: &Vec<u32>, c: HostCategory) -> (r: u32)
    ensures
        r == sat(category_sum(cats@, counts@, c), u32::MAX as int),
{
    let mut acc: u32 = 0;
    let mut k: usize = 0;
    while k < counts.len()
        invariant
            k <= counts@.len(),
            acc == sat(category_sum(cats@, counts@.take(k as int), c), u32::MAX as int),
            category_sum(cats@, counts@.take(k as int), c) >= 0,
        decreases counts@.len() - k,
    {
        assert(counts@.take(k + 1).drop_last() =~= counts@.take(k as int));
        if k < cats.len() && cats[k] == c {
            acc = acc.saturating_add(counts[k]);
        }
        k += 1;
    }
    assert(counts@.take(k as int) =~= counts@);
    acc
}

impl ContractFunctionProfile {
    /// Host call sites of category `cat` reachable from this export.
    pub fn sites(&self, cat: HostCategory) -> (r: u32)
        ensures
            r == sat(category_sum(self.import_categories@, self.import_calls@, cat), u32::MAX as int),
    {
        category_count(&self.import_categories, &self.import_calls, cat)
    }

    /// Host call sites of category `cat` that execute inside a loop.
    pub fn loop_sites(&self, cat: HostCategory) -> (r: u32)
        ensures
            r == sat(
                category_sum(self.import_categories@, self.import_calls_in_loops@, cat),
                u32::MAX as int,
            ),
    {
        category_count(&self.import_categories, &self.import_calls_in_loops, cat)
    }
}

/// Relative static cost: reachable instructions plus weighted host call
/// sites, with loop sites weighted `LOOP_WEIGHT_MULTIPLIER` times. Only
/// meaningful for ranking functions and comparing versions of one contract.
pub fn cost_index(p: &ContractFunctionProfile) -> (r: u64)
    ensures
        r == cost_spec(*p),
{
    let cats = all_categories_exec();
    let mut total: u64 = p.reachable_instructions;
    let mut k: usize = 0;
    while k < cats.len()
        invariant
            cats@ == all_categories(),
            k <= cats@.len(),
            total == sat(p.reachable_instructions + weighted_sum(p.import_categories@, p.import_calls@, cats@.take(k as int), false), u64::MAX as int),
            weighted_sum(p.import_categories@, p.import_calls@, cats@.take(k as int), false) >= 0,
        decreases cats@.len() - k,
    {
        assert(cats@.take(k + 1).drop_last() =~= cats@.take(k as int));
        let c = cats[k];
        let n = p.sites(c);
        total = total.saturating_add(crate::gas_profiler::fees::sat_mul(c.weight(), n as u64));
        k += 1;
    }
    assert(cats@.take(k as int) =~= cats@);
    let ghost base = weighted_sum(p.import_categories@, p.import_calls@, cats@, false);
    let mut j: usize = 0;
    while j < cats.len()
        invariant
            cats@ == all_categories(),
            j <= cats@.len(),
            base == weighted_sum(p.import_categories@, p.import_calls@, all_categories(), false),
            base >= 0,
            total == sat(p.reachable_instructions + base + weighted_sum(p.import_categories@, p.import_calls_in_loops@, cats@.take(j as int), true), u64::MAX as int),
            weighted_sum(p.import_categories@, p.import_calls_in_loops@, cats@.take(j as int), true) >= 0,
        decreases cats@.len() - j,
    {
        assert(cats@.take(j + 1).drop_last() =~= cats@.take(j as int));
        let c = cats[j];
        let n = p.loop_sites(c);
        total = total.saturating_add(
            crate::gas_profiler::fees::sat_mul(
                crate::gas_profiler::fees::sat_mul(c.weight(), n as u64),
                LOOP_WEIGHT_MULTIPLIER - 1,
            ),
        );
        j += 1;
    }
    assert(cats@.take(j as int) =~= cats@);
    total
}


/// `p` is the profile of the export at `root` named `name`, given `ks`, the
/// functions reachable from `root` in increasing order.
pub open spec fn profile_of(
    m: WasmModule,
    name: Seq<char>,
    root: u32,
    ks: Seq<u32>,
    p: ContractFunctionProfile,
) -> bool {
    let imported = imported_of(m);
    let imports = func_imports(m.imports@);
    &&& crate::gas_profiler::callgraph::increasing(ks)
    &&& forall|x: u32| ks.contains(x) <==> reachable(m, root, x)
    &&& p.name@ == name
    &&& p.func_index == root
    &&& p.own_instructions == match body_at(m, root) {
        Some(f) => f.instruction_count,
        None => 0,
    }
    &&& p.reachable_functions == ks.len()
    &&& p.reachable_instructions == sat(
        body_sum(m, ks, |f: FunctionBody| f.instruction_count as int),
        u64::MAX as int,
    )
    &&& p.loops == sat(body_sum(m, ks, |f: FunctionBody| f.loop_count as int), u32::MAX as int)
    &&& p.indirect_call_sites == sat(
        body_sum(m, ks, |f: FunctionBody| f.call_indirect_count as int),
        u32::MAX as int,
    )
    &&& p.max_loop_depth == body_max_depth(m, ks)
    &&& p.import_calls@.len() == imported
    &&& p.import_calls_in_loops@.len() == imported
    &&& p.import_categories@.len() == imported
    &&& p.import_labels@.len() == imported
    &&& forall|i: int|
        0 <= i < imported ==> (#[trigger] p.import_calls@[i]) == sat(
            import_sum(m, root, ks, i as u32, false),
            u32::MAX as int,
        )
    &&& forall|i: int|
        0 <= i < imported ==> (#[trigger] p.import_calls_in_loops@[i]) == sat(
            import_sum(m, root, ks, i as u32, true),
            u32::MAX as int,
        )
    &&& forall|i: int|
        0 <= i < imported ==> (#[trigger] p.import_categories@[i]) == imports[i].category
    &&& forall|i: int| 0 <= i < imported ==> (#[trigger] p.import_labels@[i])@ == import_label(imports[i])
    &&& strictly_sorted(string_views(p.rejected_features@))
    &&& forall|s: Seq<char>|
        string_views(p.rejected_features@).contains(s) <==> rejected_of(m, ks).contains(s)
    &&& p.cost_index == cost_spec(p)
}

/// The label of an import.
fn import_label_exec(i: &Import) -> (r: String)
    ensures
        r@ == import_label(*i),
{
    match &i.host_name {
        Some(n) => to_owned_string(n.as_str()),
        None => {
            let mut s = to_owned_string(i.module.as_str());
            push_str(&mut s, ".");
            push_str(&mut s, i.field.as_str());
            s
        },
    }
}

/// Merges `items` into the strictly sorted list `v`, skipping repeats.
pub(crate) fn merge_sorted(v: &mut Vec<String>, items: &Vec<String>)
    requires
        strictly_sorted(string_views(old(v)@)),
    ensures
        strictly_sorted(string_views(final(v)@)),
        forall|s: Seq<char>|
            #![trigger string_views(final(v)@).contains(s)]
            #![trigger string_views(old(v)@).contains(s)]
            #![trigger string_views(items@).contains(s)]
            string_views(final(v)@).contains(s) <==> string_views(old(v)@).contains(s)
                || string_views(items@).contains(s),
{
    let ghost before = string_views(v@);
    let ghost bv = string_views(items@);
    let mut t: usize = 0;
    while t < items.len()
        invariant
            t <= items@.len(),
            bv == string_views(items@),
            strictly_sorted(string_views(v@)),
            forall|s: Seq<char>|
                string_views(v@).contains(s) <==> before.contains(s) || bv.take(t as int).contains(s),
        decreases items@.len() - t,
    {
        let ghost r0 = string_views(v@);
        let ghost k = t as int;
        insert_sorted(v, items[t].as_str());
        t += 1;
        proof {
            assert(bv[k] == items@[k]@);
            assert forall|s: Seq<char>|
                #![trigger string_views(v@).contains(s)]
                #![trigger before.contains(s)]
                #![trigger bv.take(t as int).contains(s)]
                string_views(v@).contains(s) <==> before.contains(s) || bv.take(t as int).contains(s) by {
                assert(r0.contains(s) <==> before.contains(s) || bv.take(k).contains(s));
                assert(string_views(v@).contains(s) <==> r0.contains(s) || s == bv[k]);
                if bv.take(t as int).contains(s) && s != bv[k] {
                    let q = choose|q: int| 0 <= q < t && #[trigger] bv.take(t as int)[q] == s;
                    assert(bv.take(k)[q] == s);
                }
                if bv.take(k).contains(s) {
                    let q = choose|q: int| 0 <= q < k && #[trigger] bv.take(k)[q] == s;
                    assert(bv.take(t as int)[q] == s);
                }
                if s == bv[k] {
                    assert(bv.take(t as int)[k] == s);
                }
            }
        }
    }
    assert(bv.take(t as int) =~= bv);
    assert forall|s: Seq<char>|
        #![trigger string_views(v@).contains(s)]
        #![trigger before.contains(s)]
        #![trigger bv.contains(s)]
        string_views(v@).contains(s) <==> before.contains(s) || bv.contains(s) by {
        assert(string_views(v@).contains(s) <==> before.contains(s) || bv.take(t as int).contains(s));
    }
}

/// `s` holds the same strings as `a + b` exactly when it holds those of
/// `a` or of `b`.
pub(crate) proof fn lemma_concat_contains(a: Seq<Seq<char>>, b: Seq<Seq<char>>, s: Seq<char>)
    ensures
        (a + b).contains(s) <==> a.contains(s) || b.contains(s),
{
    if (a + b).contains(s) {
        let q = choose|q: int| 0 <= q < (a + b).len() && #[trigger] (a + b)[q] == s;
        if q < a.len() {
            assert(a[q] == s);
        } else {
            assert(b[q - a.len()] == s);
        }
    }
    if a.contains(s) {
        let q = choose|q: int| 0 <= q < a.len() && #[trigger] a[q] == s;
        assert((a + b)[q] == s);
    }
    if b.contains(s) {
        let q = choose|q: int| 0 <= q < b.len() && #[trigger] b[q] == s;
        assert((a + b)[a.len() + q] == s);
    }
}

/// Totals over the bodies of `ks`: instructions, loops, indirect call sites
/// (each saturating), the deepest loop nesting, and the sorted rejected
/// features.
fn body_totals(m: &WasmModule, ks: &Vec<u32>) -> (r: (u64, u32, u32, u32, Vec<String>))
    ensures
        r.0 == sat(body_sum(*m, ks@, |f: FunctionBody| f.instruction_count as int), u64::MAX as int),
        r.1 == sat(body_sum(*m, ks@, |f: FunctionBody| f.loop_count as int), u32::MAX as int),
        r.2 == sat(body_sum(*m, ks@, |f: FunctionBody| f.call_indirect_count as int), u32::MAX as int),
        r.3 == body_max_depth(*m, ks@),
        strictly_sorted(string_views(r.4@)),
        forall|s: Seq<char>| string_views(r.4@).contains(s) <==> rejected_of(*m, ks@).contains(s),
{
    let mut instr: u64 = 0;
    let mut loops: u32 = 0;
    let mut indirect: u32 = 0;
    let mut depth: u32 = 0;
    let mut rejected: Vec<String> = Vec::new();
    let mut j: usize = 0;
    while j < ks.len()
        invariant
            j <= ks@.len(),
            instr == sat(body_sum(*m, ks@.take(j as int), |f: FunctionBody| f.instruction_count as int), u64::MAX as int),
            loops == sat(body_sum(*m, ks@.take(j as int), |f: FunctionBody| f.loop_count as int), u32::MAX as int),
            indirect == sat(body_sum(*m, ks@.take(j as int), |f: FunctionBody| f.call_indirect_count as int), u32::MAX as int),
            body_sum(*m, ks@.take(j as int), |f: FunctionBody| f.instruction_count as int) >= 0,
            body_sum(*m, ks@.take(j as int), |f: FunctionBody| f.loop_count as int) >= 0,
            body_sum(*m, ks@.take(j as int), |f: FunctionBody| f.call_indirect_count as int) >= 0,
            depth == body_max_depth(*m, ks@.take(j as int)),
            strictly_sorted(string_views(rejected@)),
            forall|s: Seq<char>|
                string_views(rejected@).contains(s) <==> rejected_of(*m, ks@.take(j as int)).contains(s),
        decreases ks@.len() - j,
    {
        let x = ks[j];
        let ghost pre = rejected_of(*m, ks@.take(j as int));
        let ghost before = string_views(rejected@);
        assert(ks@.take(j + 1).drop_last() =~= ks@.take(j as int));
        assert(ks@.take(j + 1).last() == x);
        match m.body_for_function(x) {
            Some(body) => {
                instr = instr.saturating_add(body.instruction_count);
                loops = loops.saturating_add(body.loop_count);
                indirect = indirect.saturating_add(body.call_indirect_count);
                if body.max_loop_depth > depth {
                    depth = body.max_loop_depth;
                }
                merge_sorted(&mut rejected, &body.rejected_features);
                proof {
                    let bv = string_views(body.rejected_features@);
                    assert(rejected_of(*m, ks@.take(j + 1)) =~= pre + bv);
                    assert forall|s: Seq<char>|
                        string_views(rejected@).contains(s) <==> (pre + bv).contains(s) by {
                        assert(before.contains(s) <==> pre.contains(s));
                        assert(string_views(rejected@).contains(s) <==> before.contains(s) || bv.contains(s));
                        lemma_concat_contains(pre, bv, s);
                    }
                }
            },
            None => {
                assert(rejected_of(*m, ks@.take(j + 1)) =~= pre);
            },
        }
        j += 1;
    }
    assert(ks@.take(j as int) =~= ks@);
    (instr, loops, indirect, depth, rejected)
}

/// Call sites of import `i` over the bodies of `ks`, in all and inside
/// loops, given the functions that run inside a loop from `root`.
fn import_site_counts(
    m: &WasmModule,
    root: u32,
    ks: &Vec<u32>,
    in_loop: &BTreeMap<u32, bool>,
    i: u32,
) -> (r: (u32, u32))
    requires
        forall|x: u32| in_loop@.contains_key(x) <==> runs_in_loop(*m, root, x),
    ensures
        r.0 == sat(import_sum(*m, root, ks@, i, false), u32::MAX as int),
        r.1 == sat(import_sum(*m, root, ks@, i, true), u32::MAX as int),
{
    let mut all: u32 = 0;
    let mut inl: u32 = 0;
    let mut k: usize = 0;
    while k < ks.len()
        invariant
            k <= ks@.len(),
            forall|x: u32| in_loop@.contains_key(x) <==> runs_in_loop(*m, root, x),
            all == sat(import_sum(*m, root, ks@.take(k as int), i, false), u32::MAX as int),
            inl == sat(import_sum(*m, root, ks@.take(k as int), i, true), u32::MAX as int),
            import_sum(*m, root, ks@.take(k as int), i, false) >= 0,
            import_sum(*m, root, ks@.take(k as int), i, true) >= 0,
        decreases ks@.len() - k,
    {
        let x = ks[k];
        assert(ks@.take(k + 1).drop_last() =~= ks@.take(k as int));
        assert(ks@.take(k + 1).last() == x);
        match m.body_for_function(x) {
            Some(body) => {
                let n = match body.host_calls.get(&i) {
                    Some(v) => *v,
                    None => 0,
                };
                all = all.saturating_add(n);
                let nl = if in_loop.contains_key(&x) {
                    n
                } else {
                    match body.host_calls_in_loops.get(&i) {
                        Some(v) => *v,
                        None => 0,
                    }
                };
                inl = inl.saturating_add(nl);
            },
            None => {},
        }
        k += 1;
    }
    assert(ks@.take(k as int) =~= ks@);
    (all, inl)
}

/// Static profile of the exported function `name` at `func_index`: what it
/// reaches through direct calls, and which host call sites run in loops.
pub fn profile_export(m: &WasmModule, name: &str, func_index: u32) -> (p: ContractFunctionProfile)
    ensures
        exists|ks: Seq<u32>| profile_of(*m, name@, func_index, ks, p),
{
    let own = match m.body_for_function(func_index) {
        Some(b) => b.instruction_count,
        None => 0,
    };
    let reach = reachable_functions(m, func_index);
    let in_loop = loop_functions(m, func_index, &reach);
    let ks = keys_of(&reach);
    let ghost kv = ks@;
    let (instr, loops, indirect, depth, rejected) = body_totals(m, &ks);
    let imported = m.imported_function_count();
    let mut import_calls: Vec<u32> = Vec::new();
    let mut import_calls_in_loops: Vec<u32> = Vec::new();
    let mut import_categories: Vec<HostCategory> = Vec::new();
    let mut import_labels: Vec<String> = Vec::new();
    let mut i: u32 = 0;
    while i < imported
        invariant
            i <= imported,
            imported == imported_of(*m),
            forall|x: u32| in_loop@.contains_key(x) <==> runs_in_loop(*m, func_index, x),
            import_calls@.len() == i,
            import_calls_in_loops@.len() == i,
            import_categories@.len() == i,
            import_labels@.len() == i,
            forall|q: int|
                0 <= q < i ==> (#[trigger] import_calls@[q]) == sat(
                    import_sum(*m, func_index, ks@, q as u32, false),
                    u32::MAX as int,
                ),
            forall|q: int|
                0 <= q < i ==> (#[trigger] import_calls_in_loops@[q]) == sat(
                    import_sum(*m, func_index, ks@, q as u32, true),
                    u32::MAX as int,
                ),
            forall|q: int|
                0 <= q < i ==> (#[trigger] import_categories@[q]) == func_imports(m.imports@)[q].category,
            forall|q: int|
                0 <= q < i ==> (#[trigger] import_labels@[q])@ == import_label(func_imports(m.imports@)[q]),
        decreases imported - i,
    {
        let (all, inl) = import_site_counts(m, func_index, &ks, &in_loop, i);
        import_calls.push(all);
        import_calls_in_loops.push(inl);
        let imp = m.import_for_function(i).unwrap();
        import_categories.push(imp.category);
        import_labels.push(import_label_exec(imp));
        i += 1;
    }
    let mut p = ContractFunctionProfile {
        name: to_owned_string(name),
        func_index,
        own_instructions: own,
        reachable_functions: ks.len(),
        reachable_instructions: instr,
        import_calls,
        import_calls_in_loops,
        import_categories,
        import_labels,
        loops,
        max_loop_depth: depth,
        indirect_call_sites: indirect,
        rejected_features: rejected,
        cost_index: 0,
    };
    p.cost_index = cost_index(&p);
    proof {
        assert(crate::gas_profiler::callgraph::increasing(kv));
        assert(forall|x: u32| kv.contains(x) <==> reachable(*m, func_index, x));
        assert(p.name@ == name@);
        assert(p.reachable_functions == kv.len());
        assert(p.import_calls@.len() == imported_of(*m));
        assert(p.cost_index == cost_spec(p));
    }
    assert(profile_of(*m, name@, func_index, kv, p));
    p
}

// ── Ranking ───────────────────────────────────────────────────────────────────

/// `a` must be listed after `b`: a lower cost index, or the same cost and
/// a later name.
pub open spec fn function_after(a: ContractFunctionProfile, b: ContractFunctionProfile) -> bool {
    a.cost_index < b.cost_index || (a.cost_index == b.cost_index && seq_lt(b.name@, a.name@))
}

/// Functions most expensive first, then by name.
pub open spec fn functions_ranked(s: Seq<ContractFunctionProfile>) -> bool {
    forall|i: int, j: int| 0 <= i < j < s.len() ==> !function_after(#[trigger] s[i], #[trigger] s[j])
}

proof fn lemma_function_order(a: ContractFunctionProfile, b: ContractFunctionProfile, c: ContractFunctionProfile)
    ensures
        function_after(a, b) ==> !function_after(b, a),
        function_after(a, b) && function_after(b, c) ==> function_after(a, c),
        !function_after(a, b) ==> function_after(b, a) || (a.cost_index == b.cost_index && a.name@
            == b.name@),
{
    lemma_seq_lt_asym(a.name@, b.name@);
    lemma_seq_lt_asym(b.name@, a.name@);
    lemma_seq_lt_total(a.name@, b.name@);
    if seq_lt(b.name@, a.name@) && seq_lt(c.name@, b.name@) {
        lemma_seq_lt_trans(c.name@, b.name@, a.name@);
    }
}

fn function_after_exec(a: &ContractFunctionProfile, b: &ContractFunctionProfile) -> (r: bool)
    ensures
        r == function_after(*a, *b),
{
    a.cost_index < b.cost_index || (a.cost_index == b.cost_index && str_lt(b.name.as_str(), a.name.as_str()))
}

/// Sorts profiles by cost index (highest first), then name, keeping the
/// order of those that tie.
pub fn rank_functions(v: Vec<ContractFunctionProfile>) -> (r: Vec<ContractFunctionProfile>)
    ensures
        functions_ranked(r@),
        r@.to_multiset() == v@.to_multiset(),
{
    let mut out: Vec<ContractFunctionProfile> = Vec::new();
    let ghost src = v@;
    let mut rest = v;
    proof {
        out@.to_multiset_ensures();
        vstd::multiset::lemma_multiset_empty_len(out@.to_multiset());
    }
    assert(out@.to_multiset().add(rest@.to_multiset()) =~= src.to_multiset());
    while rest.len() > 0
        invariant
            functions_ranked(out@),
            out@.to_multiset().add(rest@.to_multiset()) == src.to_multiset(),
        decreases rest@.len(),
    {
        let ghost before = rest@;
        let x = rest.remove(0);
        proof {
            assert(before =~= rest@.insert(0, x));
            vstd::seq_lib::to_multiset_insert(rest@, 0, x);
        }
        let mut p: usize = 0;
        while p < out.len() && !function_after_exec(&out[p], &x)
            invariant
                p <= out@.len(),
                forall|i: int| 0 <= i < p ==> !function_after(#[trigger] out@[i], x),
            decreases out@.len() - p,
        {
            p += 1;
        }
        let ghost ov = out@;
        out.insert(p, x);
        proof {
            vstd::seq_lib::to_multiset_insert(ov, p as int, x);
            let nv = out@;
            assert forall|i: int, j: int| 0 <= i < j < nv.len() implies !function_after(
                #[trigger] nv[i],
                #[trigger] nv[j],
            ) by {
                if j < p {
                    assert(nv[i] == ov[i] && nv[j] == ov[j]);
                } else if j == p {
                    assert(nv[i] == ov[i] && nv[j] == x);
                } else if i == p {
                    assert(nv[j] == ov[j - 1]);
                    assert(function_after(ov[p as int], x));
                    if p < j - 1 {
                        assert(!function_after(ov[p as int], ov[j - 1]));
                    }
                    lemma_function_order(x, ov[j - 1], x);
                    lemma_function_order(ov[p as int], x, ov[j - 1]);
                    lemma_function_order(ov[j - 1], x, ov[j - 1]);
                    lemma_function_order(ov[p as int], ov[j - 1], x);
                    lemma_function_order(x, ov[p as int], ov[j - 1]);
                } else if i < p {
                    assert(nv[i] == ov[i] && nv[j] == ov[j - 1]);
                } else {
                    assert(nv[i] == ov[i - 1] && nv[j] == ov[j - 1]);
                }
            }
        }
    }
    proof {
        rest@.to_multiset_ensures();
        vstd::multiset::lemma_multiset_empty_len(rest@.to_multiset());
    }
    assert(out@.to_multiset() =~= out@.to_multiset().add(rest@.to_multiset()));
    out
}

/// A defined function that is expensive on its own (exported or not).
#[derive(Debug, Clone, PartialEq)]
pub struct InternalHotspot {
    pub func_index: u32,
    pub name: Option<String>,
    pub instructions: u64,
    pub loops: u32,
    pub max_loop_depth: u32,
    /// Host call sites in the function's own body.
    pub host_call_sites: u32,
}

/// Sum of the counts of `m` at the keys `ks`, saturating.
pub open spec fn counts_at(m: Map<u32, u32>, ks: Seq<u32>) -> int
    decreases ks.len(),
{
    if ks.len() == 0 {
        0
    } else {
        sat(counts_at(m, ks.drop_last()) + count_of(m, ks.last()) as int, u32::MAX as int)
    }
}

/// `h` is the hotspot entry of the body `f`.
pub open spec fn hotspot_of(f: FunctionBody, h: InternalHotspot) -> bool {
    &&& h.func_index == f.index
    &&& h.name == f.name
    &&& h.instructions == f.instruction_count
    &&& h.loops == f.loop_count
    &&& h.max_loop_depth == f.max_loop_depth
    &&& exists|ks: Seq<u32>|
        crate::gas_profiler::callgraph::increasing(ks) && (forall|k: u32|
            ks.contains(k) <==> f.host_calls@.contains_key(k)) && h.host_call_sites == counts_at(
            f.host_calls@,
            ks,
        )
}

/// The hotspot entry of one body.
fn hotspot(f: &FunctionBody) -> (h: InternalHotspot)
    ensures
        hotspot_of(*f, h),
{
    let ks = keys_of(&f.host_calls);
    let mut total: u32 = 0;
    let mut i: usize = 0;
    while i < ks.len()
        invariant
            i <= ks@.len(),
            total == counts_at(f.host_calls@, ks@.take(i as int)),
            counts_at(f.host_calls@, ks@.take(i as int)) >= 0,
        decreases ks@.len() - i,
    {
        assert(ks@.take(i + 1).drop_last() =~= ks@.take(i as int));
        let n = match f.host_calls.get(&ks[i]) {
            Some(v) => *v,
            None => 0,
        };
        total = total.saturating_add(n);
        i += 1;
    }
    assert(ks@.take(i as int) =~= ks@);
    let h = InternalHotspot {
        func_index: f.index,
        name: f.name.clone(),
        instructions: f.instruction_count,
        loops: f.loop_count,
        max_loop_depth: f.max_loop_depth,
        host_call_sites: total,
    };
    assert(h.name == f.name);
    h
}

/// `a` must be listed after `b`: fewer instructions, or as many and a
/// higher function index.
pub open spec fn hotspot_after(a: InternalHotspot, b: InternalHotspot) -> bool {
    a.instructions < b.instructions || (a.instructions == b.instructions && a.func_index > b.func_index)
}

/// Hotspots largest first, then by function index.
pub open spec fn hotspots_ranked(s: Seq<InternalHotspot>) -> bool {
    forall|i: int, j: int| 0 <= i < j < s.len() ==> !hotspot_after(#[trigger] s[i], #[trigger] s[j])
}

/// Sorts hotspots largest first, then by function index.
fn rank_hotspots(v: Vec<InternalHotspot>) -> (r: Vec<InternalHotspot>)
    ensures
        hotspots_ranked(r@),
        r@.to_multiset() == v@.to_multiset(),
{
    let mut out: Vec<InternalHotspot> = Vec::new();
    let ghost src = v@;
    let mut rest = v;
    proof {
        out@.to_multiset_ensures();
        vstd::multiset::lemma_multiset_empty_len(out@.to_multiset());
    }
    assert(out@.to_multiset().add(rest@.to_multiset()) =~= src.to_multiset());
    while rest.len() > 0
        invariant
            hotspots_ranked(out@),
            out@.to_multiset().add(rest@.to_multiset()) == src.to_multiset(),
        decreases rest@.len(),
    {
        let ghost before = rest@;
        let x = rest.remove(0);
        proof {
            assert(before =~= rest@.insert(0, x));
            vstd::seq_lib::to_multiset_insert(rest@, 0, x);
        }
        let mut p: usize = 0;
        while p < out.len() && !(out[p].instructions < x.instructions || (out[p].instructions
            == x.instructions && out[p].func_index > x.func_index))
            invariant
                p <= out@.len(),
                forall|i: int| 0 <= i < p ==> !hotspot_after(#[trigger] out@[i], x),
            decreases out@.len() - p,
        {
            p += 1;
        }
        let ghost ov = out@;
        out.insert(p, x);
        proof {
            vstd::seq_lib::to_multiset_insert(ov, p as int, x);
            let nv = out@;
            assert forall|i: int, j: int| 0 <= i < j < nv.len() implies !hotspot_after(
                #[trigger] nv[i],
                #[trigger] nv[j],
            ) by {
                if j < p {
                    assert(nv[i] == ov[i] && nv[j] == ov[j]);
                } else if j == p {
                    assert(nv[i] == ov[i] && nv[j] == x);
                } else if i == p {
                    assert(nv[j] == ov[j - 1]);
                    if p < j - 1 {
                        assert(!hotspot_after(ov[p as int], ov[j - 1]));
                    }
                } else if i < p {
                    assert(nv[i] == ov[i] && nv[j] == ov[j - 1]);
                } else {
                    assert(nv[i] == ov[i - 1] && nv[j] == ov[j - 1]);
                }
            }
        }
    }
    proof {
        rest@.to_multiset_ensures();
        vstd::multiset::lemma_multiset_empty_len(rest@.to_multiset());
    }
    assert(out@.to_multiset() =~= out@.to_multiset().add(rest@.to_multiset()));
    out
}

/// How many hotspots a profile keeps.
pub const MAX_HOTSPOTS: usize = 10;

/// The hotspots of the bodies `fs`: each body's entry, largest first, at
/// most `MAX_HOTSPOTS` of them.
pub open spec fn hotspots_of(fs: Seq<FunctionBody>, r: Seq<InternalHotspot>) -> bool {
    exists|all: Seq<InternalHotspot>|
        #![trigger all.len()]
        all.len() == fs.len() && (forall|i: int| 0 <= i < fs.len() ==> hotspot_of(fs[i], #[trigger] all[i]))
            && exists|ranked: Seq<InternalHotspot>|
            #![trigger ranked.len()]
            hotspots_ranked(ranked) && ranked.to_multiset() == all.to_multiset() && r == ranked.take(
                if ranked.len() > MAX_HOTSPOTS {
                    MAX_HOTSPOTS as int
                } else {
                    ranked.len() as int
                },
            )
}

/// The most expensive defined functions on their own.
pub fn internal_hotspots(fs: &Vec<FunctionBody>) -> (r: Vec<InternalHotspot>)
    ensures
        hotspots_of(fs@, r@),
{
    let mut all: Vec<InternalHotspot> = Vec::new();
    let mut i: usize = 0;
    while i < fs.len()
        invariant
            i <= fs@.len(),
            all@.len() == i,
            forall|k: int| 0 <= k < i ==> hotspot_of(fs@[k], #[trigger] all@[k]),
        decreases fs@.len() - i,
    {
        all.push(hotspot(&fs[i]));
        i += 1;
    }
    let ghost av = all@;
    let mut ranked = rank_hotspots(all);
    let ghost rv = ranked@;
    ranked.truncate(MAX_HOTSPOTS);
    assert(ranked@ =~= rv.take(if rv.len() > MAX_HOTSPOTS { MAX_HOTSPOTS as int } else { rv.len() as int }));
    assert(av.len() == fs@.len());
    assert(rv.len() == rv.len());
    ranked
}

/// Static gas profile of a contract: module facts, exported functions
/// ranked by cost, internal hotspots, the upload fee and the static
/// suggestions with their score.
#[derive(Debug, Clone, PartialEq)]
pub struct StaticProfile {
    pub contract_label: String,
    pub wasm_path: String,
    pub wasm_sha256: String,
    pub size_bytes: usize,
    pub module: ModuleSummary,
    /// Modelled resource fee of uploading this Wasm (lower bound).
    pub upload_fee: FeeBreakdown,
    /// Exported functions, most expensive first.
    pub functions: Vec<ContractFunctionProfile>,
    pub hotspots: Vec<InternalHotspot>,
    /// Measured invocations attached to the profile.
    pub measurements: Vec<MeasuredInvocation>,
    /// Suggestions, most severe first.
    pub suggestions: Vec<Suggestion>,
    /// 0–100, higher is better; derived from suggestion severities.
    pub score: u8,
}

/// `p` is the profile of the export `e` of `m`.
pub open spec fn is_export_profile(m: WasmModule, e: Export, p: ContractFunctionProfile) -> bool {
    exists|ks: Seq<u32>| profile_of(m, e.name@, e.index, ks, p)
}

/// `q` holds the profile of each function export of `m`, in export order.
pub open spec fn export_profiles(m: WasmModule, q: Seq<ContractFunctionProfile>) -> bool {
    let es = func_exports(m.exports@);
    &&& q.len() == es.len()
    &&& forall|i: int| 0 <= i < es.len() ==> is_export_profile(m, es[i], #[trigger] q[i])
}

/// The static suggestions of a profile before ranking: compatibility, size,
/// then the per-function rules.
pub open spec fn static_suggestions(
    module: ModuleSummary,
    functions: Seq<ContractFunctionProfile>,
    size_bytes: u64,
    fees: FeeSchedule,
) -> Seq<crate::gas_profiler::suggest::SuggestionView> {
    compatibility_spec(module, functions) + size_spec(module, functions, size_bytes, fees)
        + execution_rules_spec(functions, fees.fee_per_write_entry, fees.fee_per_read_entry)
}

/// `p` is the static profile of the module `m` decoded from `bytes`.
pub open spec fn static_profile_of(
    m: WasmModule,
    bytes: Seq<u8>,
    label: Seq<char>,
    wasm_path: Seq<char>,
    fees: FeeSchedule,
    p: StaticProfile,
) -> bool {
    &&& p.contract_label@ == label
    &&& p.wasm_path@ == wasm_path
    &&& p.wasm_sha256@ == hex_lower(sha256_digest(bytes))
    &&& p.size_bytes == bytes.len()
    &&& summary_of(m, p.module)
    &&& p.upload_fee == resource_fee_spec(upload_usage(bytes.len() as u64), fees)
    &&& functions_ranked(p.functions@)
    &&& exists|q: Seq<ContractFunctionProfile>|
        export_profiles(m, q) && #[trigger] q.to_multiset() == p.functions@.to_multiset()
    &&& hotspots_of(m.functions@, p.hotspots@)
    &&& p.measurements@.len() == 0
    &&& suggestions_sorted(suggestion_views(p.suggestions@))
    &&& suggestion_views(p.suggestions@).to_multiset() == static_suggestions(
        p.module,
        p.functions@,
        bytes.len() as u64,
        fees,
    ).to_multiset()
    &&& p.score == score_spec(p.suggestions@)
}

/// `p` is the static profile of the module that `bytes` decode to: a module
/// holding what the sections of `bytes` say.
pub open spec fn is_static_profile(
    bytes: Seq<u8>,
    label: Seq<char>,
    wasm_path: Seq<char>,
    fees: FeeSchedule,
    p: StaticProfile,
) -> bool {
    exists|m: WasmModule|
        module_consistent(m, bytes.len()) && module_matches(m, decoded_state(bytes)->Some_0)
            && #[trigger] static_profile_of(m, bytes, label, wasm_path, fees, p)
}

/// Profiles every function export of `m`, in export order.
fn profile_exports(m: &WasmModule) -> (r: Vec<ContractFunctionProfile>)
    ensures
        export_profiles(*m, r@),
{
    let exports = m.function_exports();
    let ghost es = func_exports(m.exports@);
    let mut out: Vec<ContractFunctionProfile> = Vec::new();
    let mut i: usize = 0;
    while i < exports.len()
        invariant
            i <= exports@.len(),
            exports@.len() == es.len(),
            es == func_exports(m.exports@),
            forall|k: int| 0 <= k < exports@.len() ==> *(#[trigger] exports@[k]) == es[k],
            out@.len() == i,
            forall|k: int| 0 <= k < i ==> is_export_profile(*m, es[k], #[trigger] out@[k]),
        decreases exports@.len() - i,
    {
        let e = exports[i];
        let p = profile_export(m, e.name.as_str(), e.index);
        let ghost prev = out@;
        out.push(p);
        i += 1;
        proof {
            let j = (i - 1) as int;
            assert(*exports@[j] == es[j]);
            let kp = choose|ks: Seq<u32>| profile_of(*m, e.name@, e.index, ks, p);
            assert(out@[j] == p);
            assert(profile_of(*m, es[j].name@, es[j].index, kp, out@[j]));
            assert(is_export_profile(*m, es[j], out@[j]));
            assert forall|k: int| 0 <= k < i implies is_export_profile(*m, es[k], #[trigger] out@[k]) by {
                if k < j {
                    assert(out@[k] == prev[k]);
                }
            }
        }
    }
    out
}

/// Builds the static profile of a contract from its Wasm bytes: decodes the
/// module, profiles and ranks the exported functions, lists the internal
/// hotspots, models the upload fee and runs the static suggestion rules.
pub fn profile_bytes(bytes: &[u8], label: &str, wasm_path: &str, cfg: &NetworkFeeConfig) -> (r: Result<
    StaticProfile,
    DecodeError,
>)
    ensures
        !is_wasm_spec(bytes@) ==> r == Err::<StaticProfile, DecodeError>(DecodeError::NotWasm),
        r == Err::<StaticProfile, DecodeError>(DecodeError::NotWasm) ==> !is_wasm_spec(bytes@),
        (r is Ok) == decode_ok(bytes@),
        match r {
            Ok(p) => is_static_profile(bytes@, label@, wasm_path@, cfg.fees, p),
            Err(_) => true,
        },
{
    let decoded = decode(bytes);
    let m = match decoded {
        Ok(m) => m,
        Err(e) => return Err(e),
    };
    assert(module_consistent(m, bytes@.len()));
    let digest = sha256(bytes);
    let sha = hex_encode(digest.as_slice());
    let functions = rank_functions(profile_exports(&m));
    let module = module_summary(&m);
    let hotspots = internal_hotspots(&m.functions);
    let size = bytes.len() as u64;
    let mut all = compatibility_rules(&module, functions.as_slice());
    let ghost a = suggestion_views(all@);
    let sz = size_rules(&module, functions.as_slice(), size, &cfg.fees);
    let ex = execution_rules(
        functions.as_slice(),
        cfg.fees.fee_per_write_entry,
        cfg.fees.fee_per_read_entry,
    );
    let ghost b = suggestion_views(sz@);
    let ghost c = suggestion_views(ex@);
    let mut sz = sz;
    let mut ex = ex;
    all.append(&mut sz);
    all.append(&mut ex);
    assert(suggestion_views(all@) =~= a + b + c);
    let suggestions = sort_suggestions(all);
    let score = score(suggestions.as_slice());
    let p = StaticProfile {
        contract_label: crate::text::to_owned_string(label),
        wasm_path: crate::text::to_owned_string(wasm_path),
        wasm_sha256: sha,
        size_bytes: bytes.len(),
        module,
        upload_fee: estimate_upload_fee(size, &cfg.fees),
        functions,
        hotspots,
        measurements: Vec::new(),
        suggestions,
        score,
    };
    assert(static_profile_of(m, bytes@, label@, wasm_path@, cfg.fees, p));
    assert(is_static_profile(bytes@, label@, wasm_path@, cfg.fees, p));
    Ok(p)
}

impl ContractFunctionProfile {
    /// Reachable call sites of the host function labelled `label`.
    pub fn host_function_sites(&self, label: &str) -> (r: u32)
        ensures
            r == crate::gas_profiler::suggest::label_total(string_views(self.import_labels@), self.import_calls@, label@),
    {
        crate::gas_profiler::suggest::label_count(&self.import_labels, &self.import_calls, label)
    }

    /// Call sites of the host function labelled `label` that run inside a
    /// loop.
    pub fn host_function_loop_sites(&self, label: &str) -> (r: u32)
        ensures
            r == crate::gas_profiler::suggest::label_total(
                string_views(self.import_labels@),
                self.import_calls_in_loops@,
                label@,
            ),
    {
        crate::gas_profiler::suggest::label_count(&self.import_labels, &self.import_calls_in_loops, label)
    }
}

impl StaticProfile {
    /// Attaches measurements and runs the suggestion engine again: the
    /// static rules and the rules on every attached measurement, ranked by
    /// severity, with the score recomputed. The rest of the profile is kept.
    pub fn with_measurements(self, measurements: Vec<MeasuredInvocation>, cfg: &NetworkFeeConfig) -> (r:
        StaticProfile)
        ensures
            r.measurements@ == self.measurements@ + measurements@,
            r.contract_label == self.contract_label,
            r.wasm_path == self.wasm_path,
            r.wasm_sha256 == self.wasm_sha256,
            r.size_bytes == self.size_bytes,
            r.module == self.module,
            r.upload_fee == self.upload_fee,
            r.functions == self.functions,
            r.hotspots == self.hotspots,
            suggestions_sorted(suggestion_views(r.suggestions@)),
            suggestion_views(r.suggestions@).to_multiset() == (static_suggestions(
                self.module,
                self.functions@,
                self.size_bytes as u64,
                cfg.fees,
            ) + measured_spec(r.measurements@, cfg.fees.source@)).to_multiset(),
            r.score == score_spec(r.suggestions@),
    {
        let mut p = self;
        let mut extra = measurements;
        p.measurements.append(&mut extra);
        let size = p.size_bytes as u64;
        let mut all = compatibility_rules(&p.module, p.functions.as_slice());
        let ghost a = suggestion_views(all@);
        let sz = size_rules(&p.module, p.functions.as_slice(), size, &cfg.fees);
        let ex = execution_rules(
            p.functions.as_slice(),
            cfg.fees.fee_per_write_entry,
            cfg.fees.fee_per_read_entry,
        );
        let me = measured_rules(p.measurements.as_slice(), cfg.fees.source.as_str());
        let ghost b = suggestion_views(sz@);
        let ghost c = suggestion_views(ex@);
        let ghost d = suggestion_views(me@);
        let mut sz = sz;
        let mut ex = ex;
        let mut me = me;
        all.append(&mut sz);
        all.append(&mut ex);
        all.append(&mut me);
        assert(suggestion_views(all@) =~= a + b + c + d);
        let suggestions = sort_suggestions(all);
        let score = score(suggestions.as_slice());
        p.suggestions = suggestions;
        p.score = score;
        p
    }

    /// The profile of the exported function `name`, if there is one (the
    /// first in ranking order).
    pub fn function(&self, name: &str) -> (r: Option<&ContractFunctionProfile>)
        ensures
            match r {
                Some(f) => exists|i: int|
                    0 <= i < self.functions@.len() && self.functions@[i] == *f && f.name@ == name@
                        && forall|j: int| 0 <= j < i ==> (#[trigger] self.functions@[j]).name@ != name@,
                None => forall|j: int| 0 <= j < self.functions@.len() ==> (#[trigger] self.functions@[j]).name@ != name@,
            },
    {
        let mut i: usize = 0;
        while i < self.functions.len()
            invariant
                i <= self.functions@.len(),
                forall|j: int| 0 <= j < i ==> (#[trigger] self.functions@[j]).name@ != name@,
            decreases self.functions@.len() - i,
        {
            if crate::text::str_eq(self.functions[i].name.as_str(), name) {
                return Some(&self.functions[i]);
            }
            i += 1;
        }
        None
    }

    /// Whether any suggestion is critical.
    pub fn has_critical(&self) -> (r: bool)
        ensures
            r == exists|i: int|
                0 <= i < self.suggestions@.len() && (#[trigger] self.suggestions@[i]).severity
                    == crate::gas_profiler::suggest::FindingSeverity::Critical,
    {
        let mut i: usize = 0;
        while i < self.suggestions.len()
            invariant
                i <= self.suggestions@.len(),
                forall|j: int|
                    0 <= j < i ==> (#[trigger] self.suggestions@[j]).severity
                        != crate::gas_profiler::suggest::FindingSeverity::Critical,
            decreases self.suggestions@.len() - i,
        {
            match self.suggestions[i].severity {
                crate::gas_profiler::suggest::FindingSeverity::Critical => {
                    return true;
                },
                _ => {},
            }
            i += 1;
        }
        false
    }
}

/// A static profile reports a High `GAS-120` suggestion, naming the
/// function, for every profiled function that reads storage inside a loop.
pub proof fn law_profile_reports_storage_reads_in_loops(
    bytes: Seq<u8>,
    label: Seq<char>,
    wasm_path: Seq<char>,
    fees: FeeSchedule,
    p: StaticProfile,
    i: int,
)
    requires
        is_static_profile(bytes, label, wasm_path, fees, p),
        0 <= i < p.functions@.len(),
        loop_count(p.functions@[i], HostCategory::StorageRead) > 0,
    ensures
        suggestion_views(p.suggestions@).contains(read_loop_view(p.functions@[i])),
{
    law_storage_read_in_loop_is_reported(
        p.functions@,
        fees.fee_per_write_entry,
        fees.fee_per_read_entry,
        i,
    );
    lemma_execution_rule_reported(bytes, label, wasm_path, fees, p, read_loop_view(p.functions@[i]));
}

/// A static profile reports a High `GAS-121` suggestion, naming the
/// function, for every profiled function that writes storage inside a loop.
pub proof fn law_profile_reports_storage_writes_in_loops(
    bytes: Seq<u8>,
    label: Seq<char>,
    wasm_path: Seq<char>,
    fees: FeeSchedule,
    p: StaticProfile,
    i: int,
)
    requires
        is_static_profile(bytes, label, wasm_path, fees, p),
        0 <= i < p.functions@.len(),
        loop_count(p.functions@[i], HostCategory::StorageWrite) > 0,
    ensures
        suggestion_views(p.suggestions@).contains(write_loop_view(p.functions@[i])),
{
    law_storage_write_in_loop_is_reported(
        p.functions@,
        fees.fee_per_write_entry,
        fees.fee_per_read_entry,
        i,
    );
    lemma_execution_rule_reported(bytes, label, wasm_path, fees, p, write_loop_view(p.functions@[i]));
}

/// A per-function suggestion of a static profile's functions is among its
/// suggestions.
proof fn lemma_execution_rule_reported(
    bytes: Seq<u8>,
    label: Seq<char>,
    wasm_path: Seq<char>,
    fees: FeeSchedule,
    p: StaticProfile,
    x: SuggestionView,
)
    requires
        is_static_profile(bytes, label, wasm_path, fees, p),
        execution_rules_spec(p.functions@, fees.fee_per_write_entry, fees.fee_per_read_entry).contains(x),
    ensures
        suggestion_views(p.suggestions@).contains(x),
{
    let m = choose|m: WasmModule|
        module_consistent(m, bytes.len()) && module_matches(m, decoded_state(bytes)->Some_0)
            && #[trigger] static_profile_of(m, bytes, label, wasm_path, fees, p);
    let fs = p.functions@;
    let ex = execution_rules_spec(fs, fees.fee_per_write_entry, fees.fee_per_read_entry);
    let j = choose|j: int| 0 <= j < ex.len() && ex[j] == x;
    let pre = compatibility_spec(p.module, fs) + size_spec(p.module, fs, bytes.len() as u64, fees);
    let all = static_suggestions(p.module, fs, bytes.len() as u64, fees);
    assert(all == pre + ex);
    assert(all[pre.len() + j] == ex[j]);
    assert(all.contains(x));
    vstd::seq_lib::to_multiset_contains(all, x);
    vstd::seq_lib::to_multiset_contains(suggestion_views(p.suggestions@), x);
}

} // verus!
