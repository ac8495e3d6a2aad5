//! Deployment plans: the step records of a multi-contract deployment and the
//! dependency waves in which independent contracts can be deployed together.

pub mod manifest;

use vstd::prelude::*;
use vstd::string::StringSliceAdditionalSpecFns;
use vstd::utf8::{encode_utf8, is_char_boundary};
use crate::text::{lemma_string_views_push, push_str, str_eq, string_views, to_owned_string};

verus! {

/// Progress of one deployment step.
#[derive(Debug, Clone, Copy, PartialEq, Eq, Structural)]
pub enum DeployStepStatus {
    Pending,
    Running,
    Deployed,
    Failed,
    RolledBack,
}

/// One contract of a deployment plan.
#[derive(Debug, Clone)]
pub struct DeployStep {
    pub contract_id: String,
    /// Path of the contract's Wasm file.
    pub wasm: String,
    pub wasm_hash: String,
    pub status: DeployStepStatus,
    pub deployed_address: Option<String>,
    pub error: Option<String>,
    pub order: u32,
    /// Contracts that must be deployed before this one (from the manifest).
    pub depends_on: Vec<String>,
}

/// A deployment plan and its progress.
#[derive(Debug, Clone)]
pub struct DeploymentState {
    pub id: String,
    pub manifest_name: String,
    pub network: String,
    pub created_at: String,
    pub updated_at: String,
    pub status: String,
    pub steps: Vec<DeployStep>,
}

/// Why a plan cannot be split into waves.
#[derive(Debug, Clone)]
pub enum PlanError {
    /// A step names a dependency that no step of the plan provides.
    UnknownDependency { contract: String, dependency: String },
    /// The dependencies form a cycle.
    Cycle,
}

impl PlanError {
    /// Human-readable description.
    pub fn message(&self) -> (r: String)
        ensures
            self is Cycle ==> r@ == "Circular dependency detected in deployment plan"@,
    {
        match self {
            PlanError::UnknownDependency { contract, dependency } => {
                let mut s = to_owned_string("Contract '");
                push_str(&mut s, contract.as_str());
                push_str(&mut s, "' depends on unknown contract '");
                push_str(&mut s, dependency.as_str());
                push_str(&mut s, "'");
                s
            },
            PlanError::Cycle => to_owned_string("Circular dependency detected in deployment plan"),
        }
    }
}

// ── Dependency model ─────────────────────────────────────────────────────────

/// The contract ids of the steps, in plan order.
pub open spec fn ids(steps: Seq<DeployStep>) -> Seq<Seq<char>> {
    steps.map_values(|s: DeployStep| s.contract_id@)
}

/// Index of the last id equal to `name`, or -1 when there is none (a later
/// step with a repeated id shadows an earlier one).
pub open spec fn last_index_of(ids: Seq<Seq<char>>, name: Seq<char>) -> int
    decreases ids.len(),
{
    if ids.len() == 0 {
        -1
    } else if ids.last() == name {
        ids.len() - 1
    } else {
        last_index_of(ids.drop_last(), name)
    }
}

/// Number of dependencies of step `i`.
pub open spec fn dep_count(steps: Seq<DeployStep>, i: int) -> int {
    steps[i].depends_on@.len() as int
}

/// The step that the `k`-th dependency of step `i` names (-1 if none).
pub open spec fn dep_target(steps: Seq<DeployStep>, i: int, k: int) -> int {
    last_index_of(ids(steps), steps[i].depends_on@[k]@)
}

/// The `k`-th dependency of step `i` names no step.
pub open spec fn is_unknown(steps: Seq<DeployStep>, i: int, k: int) -> bool {
    &&& 0 <= i < steps.len()
    &&& 0 <= k < dep_count(steps, i)
    &&& dep_target(steps, i, k) < 0
}

/// Some dependency names no step.
pub open spec fn has_unknown_dependency(steps: Seq<DeployStep>) -> bool {
    exists|i: int, k: int| #[trigger] is_unknown(steps, i, k)
}

/// `lvl` gives every step its wave: each dependency is in an earlier wave,
/// and a step in wave `w > 0` has a dependency in wave `w - 1` (it is not
/// held back further than its dependencies require).
pub open spec fn is_leveling(steps: Seq<DeployStep>, lvl: Seq<nat>) -> bool {
    &&& lvl.len() == steps.len()
    &&& forall|i: int, k: int|
        0 <= i < steps.len() && 0 <= k < dep_count(steps, i) ==> 0 <= #[trigger] dep_target(
            steps,
            i,
            k,
        ) < steps.len() && lvl[dep_target(steps, i, k)] < lvl[i]
    &&& forall|i: int|
        0 <= i < steps.len() && #[trigger] lvl[i] > 0 ==> exists|k: int|
            0 <= k < dep_count(steps, i) && lvl[#[trigger] dep_target(steps, i, k)] == lvl[i] - 1
}

/// `s` is a non-empty set of steps each of which depends on a step of `s`.
pub open spec fn is_cycle(steps: Seq<DeployStep>, s: Set<int>) -> bool {
    &&& exists|i: int| s.contains(i)
    &&& forall|i: int|
        #[trigger] s.contains(i) ==> 0 <= i < steps.len() && exists|k: int|
            0 <= k < dep_count(steps, i) && s.contains(#[trigger] dep_target(steps, i, k))
}

/// `waves` lists, for each wave in order, the indices of its steps in
/// ascending order; no wave is empty.
pub open spec fn waves_of(waves: Seq<Seq<usize>>, lvl: Seq<nat>) -> bool {
    &&& forall|i: int| 0 <= i < lvl.len() ==> #[trigger] lvl[i] < waves.len()
    &&& forall|w: int| 0 <= w < waves.len() ==> #[trigger] waves[w].len() > 0
    &&& forall|w: int, a: int, b: int|
        0 <= w < waves.len() && 0 <= a < b < waves[w].len() ==> #[trigger] waves[w][a]
            < #[trigger] waves[w][b]
    &&& forall|w: int, a: int|
        0 <= w < waves.len() && 0 <= a < waves[w].len() ==> #[trigger] waves[w][a] < lvl.len()
            && lvl[waves[w][a] as int] == w
    &&& forall|i: int| 0 <= i < lvl.len() ==> waves[#[trigger] lvl[i] as int].contains(i as usize)
}

/// The views of the waves.
pub open spec fn wave_views(waves: Seq<Vec<usize>>) -> Seq<Seq<usize>> {
    waves.map_values(|w: Vec<usize>| w@)
}

// ── Counting assigned steps ──────────────────────────────────────────────────

spec fn num_some(s: Seq<Option<usize>>) -> nat
    decreases s.len(),
{
    if s.len() == 0 {
        0
    } else {
        num_some(s.drop_last()) + if s.last() is Some {
            1nat
        } else {
            0nat
        }
    }
}

proof fn lemma_num_some_update(s: Seq<Option<usize>>, i: int, v: Option<usize>)
    requires
        0 <= i < s.len(),
        s[i] is None,
        v is Some,
    ensures
        num_some(s.update(i, v)) == num_some(s) + 1,
    decreases s.len(),
{
    if i == s.len() - 1 {
        assert(s.update(i, v).drop_last() =~= s.drop_last());
    } else {
        lemma_num_some_update(s.drop_last(), i, v);
        assert(s.update(i, v).drop_last() =~= s.drop_last().update(i, v));
    }
}

proof fn lemma_num_some_none(s: Seq<Option<usize>>)
    requires
        forall|i: int| 0 <= i < s.len() ==> (#[trigger] s[i]) is None,
    ensures
        num_some(s) == 0,
    decreases s.len(),
{
    if s.len() > 0 {
        assert forall|i: int| 0 <= i < s.drop_last().len() implies (#[trigger] s.drop_last()[i]) is None by {
            assert(s.drop_last()[i] == s[i]);
        }
        lemma_num_some_none(s.drop_last());
        assert(s[s.len() - 1] is None);
    }
}

proof fn lemma_num_some_bound(s: Seq<Option<usize>>)
    ensures
        num_some(s) <= s.len(),
        num_some(s) == s.len() ==> forall|i: int| 0 <= i < s.len() ==> #[trigger] s[i] is Some,
        num_some(s) < s.len() ==> exists|i: int| 0 <= i < s.len() && #[trigger] s[i] is None,
    decreases s.len(),
{
    if s.len() > 0 {
        lemma_num_some_bound(s.drop_last());
        if num_some(s) == s.len() {
            assert forall|i: int| 0 <= i < s.len() implies #[trigger] s[i] is Some by {
                if i < s.len() - 1 {
                    assert(s[i] == s.drop_last()[i]);
                }
            }
        }
        if num_some(s) < s.len() {
            if s.last() is None {
                assert(s[s.len() - 1] is None);
            } else {
                let j = choose|j: int| 0 <= j < s.drop_last().len() && #[trigger] s.drop_last()[j] is None;
                assert(s[j] is None);
            }
        }
    }
}

// ── Resolving dependencies ───────────────────────────────────────────────────

proof fn lemma_ids_take_last(steps: Seq<DeployStep>, i: int)
    requires
        0 < i <= steps.len(),
    ensures
        ids(steps).take(i).last() == steps[i - 1].contract_id@,
        ids(steps).take(i).drop_last() == ids(steps).take(i - 1),
        ids(steps).take(i).len() == i,
{
    assert(ids(steps).take(i).drop_last() =~= ids(steps).take(i - 1));
}

/// The last step whose id is `name`.
fn find_step(steps: &Vec<DeployStep>, name: &str) -> (r: Option<usize>)
    ensures
        match r {
            Some(j) => j < steps@.len() && j as int == last_index_of(ids(steps@), name@),
            None => last_index_of(ids(steps@), name@) == -1,
        },
{
    let mut i = steps.len();
    assert(ids(steps@).take(i as int) =~= ids(steps@));
    while i > 0
        invariant
            i <= steps@.len(),
            last_index_of(ids(steps@), name@) == last_index_of(ids(steps@).take(i as int), name@),
        decreases i,
    {
        proof {
            lemma_ids_take_last(steps@, i as int);
        }
        if str_eq(steps[i - 1].contract_id.as_str(), name) {
            return Some(i - 1);
        }
        i -= 1;
    }
    None
}

/// `d` holds, for each step, the indices of the steps its dependencies name.
pub open spec fn resolved(steps: Seq<DeployStep>, d: Seq<Seq<usize>>) -> bool {
    &&& d.len() == steps.len()
    &&& forall|i: int| 0 <= i < d.len() ==> #[trigger] d[i].len() == dep_count(steps, i)
    &&& forall|i: int, k: int|
        0 <= i < d.len() && 0 <= k < d[i].len() ==> #[trigger] d[i][k] as int == dep_target(
            steps,
            i,
            k,
        ) && d[i][k] < d.len()
}

/// (i, k) comes before (i2, k2) in plan order.
pub open spec fn before(i: int, k: int, i2: int, k2: int) -> bool {
    i < i2 || (i == i2 && k < k2)
}

/// Looks every dependency up; reports the first unknown one in plan order.
fn resolve_all(steps: &Vec<DeployStep>) -> (r: Result<Vec<Vec<usize>>, PlanError>)
    ensures
        match r {
            Ok(d) => resolved(steps@, d@.map_values(|v: Vec<usize>| v@)) && !has_unknown_dependency(
                steps@,
            ),
            Err(PlanError::UnknownDependency { contract, dependency }) => exists|i: int, k: int|
                #[trigger] is_unknown(steps@, i, k) && contract@ == steps@[i].contract_id@
                    && dependency@ == steps@[i].depends_on@[k]@ && forall|i2: int, k2: int|
                    before(i2, k2, i, k) ==> !#[trigger] is_unknown(steps@, i2, k2),
            Err(PlanError::Cycle) => false,
        },
{
    let mut d: Vec<Vec<usize>> = Vec::new();
    let mut i: usize = 0;
    while i < steps.len()
        invariant
            i <= steps@.len(),
            d@.len() == i,
            forall|a: int| 0 <= a < i ==> #[trigger] d@[a]@.len() == dep_count(steps@, a),
            forall|a: int, k: int|
                0 <= a < i && 0 <= k < d@[a]@.len() ==> #[trigger] d@[a]@[k] as int == dep_target(
                    steps@,
                    a,
                    k,
                ) && d@[a]@[k] < steps@.len(),
            forall|a: int, k: int| 0 <= a < i ==> !#[trigger] is_unknown(steps@, a, k),
        decreases steps@.len() - i,
    {
        let deps = &steps[i].depends_on;
        let mut row: Vec<usize> = Vec::new();
        let mut k: usize = 0;
        while k < deps.len()
            invariant
                i < steps@.len(),
                deps@ == steps@[i as int].depends_on@,
                k <= deps@.len(),
                row@.len() == k,
                forall|b: int|
                    0 <= b < k ==> #[trigger] row@[b] as int == dep_target(steps@, i as int, b)
                        && row@[b] < steps@.len(),
                forall|b: int| 0 <= b < k ==> !#[trigger] is_unknown(steps@, i as int, b),
                forall|a: int, b: int| 0 <= a < i ==> !#[trigger] is_unknown(steps@, a, b),
            decreases deps@.len() - k,
        {
            match find_step(steps, deps[k].as_str()) {
                Some(j) => {
                    row.push(j);
                },
                None => {
                    let contract = to_owned_string(steps[i].contract_id.as_str());
                    let dependency = to_owned_string(deps[k].as_str());
                    assert(is_unknown(steps@, i as int, k as int));
                    assert forall|i2: int, k2: int| before(i2, k2, i as int, k as int) implies !#[trigger] is_unknown(
                        steps@,
                        i2,
                        k2,
                    ) by {
                        if i2 == i {
                            assert(0 <= k2 < k ==> !is_unknown(steps@, i as int, k2));
                        }
                    }
                    return Err(PlanError::UnknownDependency { contract, dependency });
                },
            }
            k += 1;
        }
        assert forall|b: int| !#[trigger] is_unknown(steps@, i as int, b) by {
            if 0 <= b < k {
            }
        }
        d.push(row);
        i += 1;
    }
    proof {
        let dv = d@.map_values(|v: Vec<usize>| v@);
        assert forall|a: int| 0 <= a < dv.len() implies #[trigger] dv[a].len() == dep_count(
            steps@,
            a,
        ) by {
            assert(dv[a] == d@[a]@);
        }
        assert forall|a: int, k: int| 0 <= a < dv.len() && 0 <= k < dv[a].len() implies #[trigger] dv[a][k] as int
            == dep_target(steps@, a, k) && dv[a][k] < dv.len() by {
            assert(dv[a] == d@[a]@);
        }
        assert(!has_unknown_dependency(steps@)) by {
            if has_unknown_dependency(steps@) {
                let (a, k) = choose|a: int, k: int| #[trigger] is_unknown(steps@, a, k);
                assert(!is_unknown(steps@, a, k));
            }
        }
    }
    Ok(d)
}

// ── Waves ─────────────────────────────────────────────────────────────────────

/// Every dependency of step `i` has been given a wave.
spec fn deps_assigned(d: Seq<Seq<usize>>, level: Seq<Option<usize>>, i: int) -> bool {
    forall|k: int| 0 <= k < d[i].len() ==> (#[trigger] level[d[i][k] as int]) is Some
}

/// The invariant of the wave-peeling loop after `waves.len()` rounds.
spec fn peel_inv(d: Seq<Seq<usize>>, level: Seq<Option<usize>>, waves: Seq<Seq<usize>>) -> bool {
    let n = d.len();
    let r = waves.len();
    &&& level.len() == n
    &&& forall|i: int, k: int| 0 <= i < n && 0 <= k < d[i].len() ==> #[trigger] d[i][k] < n
    &&& forall|i: int| 0 <= i < n && (#[trigger] level[i]) is Some ==> level[i]->0 < r
    &&& forall|i: int, k: int|
        0 <= i < n && level[i] is Some && 0 <= k < d[i].len() ==> (#[trigger] level[d[i][k] as int]) is Some
            && level[d[i][k] as int]->0 < level[i]->0
    &&& forall|i: int|
        0 <= i < n && (#[trigger] level[i]) is Some && level[i]->0 > 0 ==> exists|k: int|
            0 <= k < d[i].len() && #[trigger] level[d[i][k] as int] == Some((level[i]->0 - 1) as usize)
    &&& forall|i: int|
        0 <= i < n && (#[trigger] level[i]) is None && r > 0 ==> exists|k: int|
            0 <= k < d[i].len() && ((#[trigger] level[d[i][k] as int]) is None || level[d[i][k] as int]
                == Some((r - 1) as usize))
    &&& forall|w: int| 0 <= w < r ==> #[trigger] waves[w].len() > 0
    &&& forall|w: int, a: int, b: int|
        0 <= w < r && 0 <= a < b < waves[w].len() ==> #[trigger] waves[w][a] < #[trigger] waves[w][b]
    &&& forall|w: int, a: int|
        0 <= w < r && 0 <= a < waves[w].len() ==> #[trigger] waves[w][a] < n && level[waves[w][a] as int]
            == Some(w as usize)
    &&& forall|i: int|
        0 <= i < n && (#[trigger] level[i]) is Some ==> waves[level[i]->0 as int].contains(i as usize)
}

/// Whether every index in `deps` has a wave in `level`.
fn all_assigned(deps: &Vec<usize>, level: &Vec<Option<usize>>) -> (r: bool)
    requires
        forall|k: int| 0 <= k < deps@.len() ==> #[trigger] deps@[k] < level@.len(),
    ensures
        r == forall|k: int| 0 <= k < deps@.len() ==> (#[trigger] level@[deps@[k] as int]) is Some,
{
    let mut k: usize = 0;
    while k < deps.len()
        invariant
            k <= deps@.len(),
            forall|b: int| 0 <= b < deps@.len() ==> #[trigger] deps@[b] < level@.len(),
            forall|b: int| 0 <= b < k ==> (#[trigger] level@[deps@[b] as int]) is Some,
        decreases deps@.len() - k,
    {
        if level[deps[k]].is_none() {
            return false;
        }
        k += 1;
    }
    true
}

/// Partitions the plan into execution waves: step indices whose
/// dependencies resolve at the same depth. Steps in one wave never depend on
/// each other and can be deployed concurrently; waves are strictly ordered.
/// A step without dependencies is in wave 0; each wave lists its steps in
/// ascending order. A dependency names the last step with that id.
pub fn compute_execution_levels(state: &DeploymentState) -> (r: Result<Vec<Vec<usize>>, PlanError>)
    ensures
        match r {
            Ok(waves) => !has_unknown_dependency(state.steps@) && exists|lvl: Seq<nat>|
                is_leveling(state.steps@, lvl) && waves_of(wave_views(waves@), lvl),
            Err(PlanError::UnknownDependency { contract, dependency }) => exists|i: int, k: int|
                #[trigger] is_unknown(state.steps@, i, k) && contract@ == state.steps@[i].contract_id@
                    && dependency@ == state.steps@[i].depends_on@[k]@ && forall|i2: int, k2: int|
                    before(i2, k2, i, k) ==> !#[trigger] is_unknown(state.steps@, i2, k2),
            Err(PlanError::Cycle) => !has_unknown_dependency(state.steps@) && exists|s: Set<int>|
                is_cycle(state.steps@, s),
        },
{
    let steps = &state.steps;
    let n = steps.len();
    let deps = match resolve_all(steps) {
        Ok(d) => d,
        Err(e) => {
            return Err(e);
        },
    };
    let ghost dv = deps@.map_values(|v: Vec<usize>| v@);
    assert forall|i: int| 0 <= i < n implies #[trigger] deps@[i]@ == dv[i] by {}
    let mut level: Vec<Option<usize>> = Vec::new();
    let mut i: usize = 0;
    while i < n
        invariant
            i <= n,
            level@.len() == i,
            forall|a: int| 0 <= a < i ==> (#[trigger] level@[a]) is None,
        decreases n - i,
    {
        level.push(None);
        i += 1;
    }
    proof {
        assert(level@ =~= Seq::new(n as nat, |a: int| None::<usize>));
        lemma_num_some_none(level@);
    }
    let mut waves: Vec<Vec<usize>> = Vec::new();
    let mut assigned: usize = 0;
    loop
        invariant
            n == steps@.len(),
            resolved(steps@, dv),
            deps@.len() == n,
            forall|a: int| 0 <= a < n ==> #[trigger] deps@[a]@ == dv[a],
            peel_inv(dv, level@, wave_views(waves@)),
            assigned == num_some(level@),
            assigned <= n,
            waves@.len() <= assigned,
        ensures
            forall|j: int| 0 <= j < n && (#[trigger] level@[j]) is None ==> !deps_assigned(dv, level@, j),
        decreases n - waves@.len(),
    {
        let round = waves.len();
        let ghost old_level = level@;
        let ghost wv = wave_views(waves@);
        // Collect the unassigned steps whose dependencies all have a wave.
        let mut wave: Vec<usize> = Vec::new();
        let mut i: usize = 0;
        while i < n
            invariant
                n == steps@.len(),
                resolved(steps@, dv),
                deps@.len() == n,
                forall|a: int| 0 <= a < n ==> #[trigger] deps@[a]@ == dv[a],
                level@ == old_level,
                level@.len() == n,
                i <= n,
                forall|a: int, b: int| 0 <= a < b < wave@.len() ==> #[trigger] wave@[a] < #[trigger] wave@[b],
                forall|a: int| 0 <= a < wave@.len() ==> #[trigger] wave@[a] < i,
                forall|a: int|
                    0 <= a < wave@.len() ==> (#[trigger] level@[wave@[a] as int]) is None && deps_assigned(
                        dv,
                        level@,
                        wave@[a] as int,
                    ),
                forall|j: int|
                    0 <= j < i && (#[trigger] level@[j]) is None && deps_assigned(dv, level@, j)
                        ==> wave@.contains(j as usize),
            decreases n - i,
        {
            let ghost old_wave = wave@;
            if level[i].is_none() {
                let ok = all_assigned(&deps[i], &level);
                assert(deps@[i as int]@ == dv[i as int]);
                assert(ok == deps_assigned(dv, level@, i as int));
                if ok {
                    wave.push(i);
                }
            }
            proof {
                assert forall|j: int|
                    0 <= j < i + 1 && (#[trigger] level@[j]) is None && deps_assigned(dv, level@, j)
                        implies wave@.contains(j as usize) by {
                    if j < i {
                        let x = choose|x: int| 0 <= x < old_wave.len() && old_wave[x] == j as usize;
                        assert(wave@[x] == j as usize);
                    } else {
                        assert(wave@[wave@.len() - 1] == i);
                    }
                }
            }
            i += 1;
        }
        if wave.len() == 0 {
            assert forall|j: int| 0 <= j < n && (#[trigger] level@[j]) is None implies !deps_assigned(dv, level@, j) by {
                if deps_assigned(dv, level@, j) {
                    assert(wave@.contains(j as usize));
                }
            }
            break;
        }
        // Give the collected steps the wave `round`.
        let mut a: usize = 0;
        while a < wave.len()
            invariant
                level@.len() == n,
                n == dv.len(),
                a <= wave@.len(),
                forall|x: int, y: int| 0 <= x < y < wave@.len() ==> #[trigger] wave@[x] < #[trigger] wave@[y],
                forall|x: int| 0 <= x < wave@.len() ==> #[trigger] wave@[x] < n,
                forall|x: int| 0 <= x < wave@.len() ==> (#[trigger] old_level[wave@[x] as int]) is None,
                forall|j: int|
                    0 <= j < n ==> #[trigger] level@[j] == if wave@.take(a as int).contains(j as usize) {
                        Some(round)
                    } else {
                        old_level[j]
                    },
                assigned + a == num_some(level@),
                old_level.len() == n,
            decreases wave@.len() - a,
        {
            let idx = wave[a];
            proof {
                assert(!wave@.take(a as int).contains(idx)) by {
                    if wave@.take(a as int).contains(idx) {
                        let x = choose|x: int| 0 <= x < a && wave@.take(a as int)[x] == idx;
                        assert(wave@[x] < wave@[a as int]);
                    }
                }
                assert(level@[idx as int] is None);
                lemma_num_some_update(level@, idx as int, Some(round));
            }
            let ghost prev = level@;
            level.set(idx, Some(round));
            proof {
                assert(wave@.take(a as int + 1) =~= wave@.take(a as int).push(idx));
                assert forall|j: int| 0 <= j < n implies #[trigger] level@[j] == if wave@.take(
                    a as int + 1,
                ).contains(j as usize) {
                    Some(round)
                } else {
                    old_level[j]
                } by {
                    let t1 = wave@.take(a as int);
                    let t2 = wave@.take(a as int + 1);
                    if j == idx as int {
                        assert(t2[a as int] == idx);
                        assert(t2.contains(j as usize));
                    } else {
                        assert(level@[j] == prev[j]);
                        if t1.contains(j as usize) {
                            let x = choose|x: int| 0 <= x < t1.len() && t1[x] == j as usize;
                            assert(t2[x] == j as usize);
                            assert(t2.contains(j as usize));
                        }
                        if t2.contains(j as usize) {
                            let x = choose|x: int| 0 <= x < t2.len() && t2[x] == j as usize;
                            assert(x < a);
                            assert(t1[x] == j as usize);
                            assert(t1.contains(j as usize));
                        }
                    }
                }
            }
            a += 1;
        }
        proof {
            assert(wave@.take(wave@.len() as int) =~= wave@);
            lemma_num_some_bound(level@);
            let nv = wave_views(waves@.push(wave));
            assert(nv =~= wv.push(wave@));
            assert(peel_inv(dv, level@, nv)) by {
                let r = round as int;
                assert forall|j: int| 0 <= j < n && (#[trigger] level@[j]) is Some implies level@[j]->0 < r + 1 by {
                    if !wave@.contains(j as usize) {
                        assert(old_level[j] is Some);
                    }
                }
                assert forall|j: int, k: int|
                    0 <= j < n && level@[j] is Some && 0 <= k < dv[j].len() implies (#[trigger] level@[dv[j][k] as int]) is Some
                        && level@[dv[j][k] as int]->0 < level@[j]->0 by {
                    let t = dv[j][k] as int;
                    if wave@.contains(j as usize) {
                        let x = choose|x: int| 0 <= x < wave@.len() && wave@[x] == j as usize;
                        assert(deps_assigned(dv, old_level, j));
                        assert(old_level[t] is Some);
                        if wave@.contains(t as usize) {
                            let y = choose|y: int| 0 <= y < wave@.len() && wave@[y] == t as usize;
                            assert(old_level[wave@[y] as int] is None);
                        }
                    } else {
                        assert(old_level[j] is Some);
                        assert(old_level[t] is Some);
                        if wave@.contains(t as usize) {
                            let y = choose|y: int| 0 <= y < wave@.len() && wave@[y] == t as usize;
                            assert(old_level[wave@[y] as int] is None);
                        }
                    }
                }
                assert forall|j: int|
                    0 <= j < n && (#[trigger] level@[j]) is Some && level@[j]->0 > 0 implies exists|k: int|
                        0 <= k < dv[j].len() && #[trigger] level@[dv[j][k] as int] == Some(
                            (level@[j]->0 - 1) as usize,
                        ) by {
                    if wave@.contains(j as usize) {
                        let x = choose|x: int| 0 <= x < wave@.len() && wave@[x] == j as usize;
                        assert(old_level[j] is None);
                        assert(deps_assigned(dv, old_level, j));
                        let k = choose|k: int|
                            0 <= k < dv[j].len() && ((#[trigger] old_level[dv[j][k] as int]) is None
                                || old_level[dv[j][k] as int] == Some((r - 1) as usize));
                        let t = dv[j][k] as int;
                        assert(old_level[t] is Some);
                        if wave@.contains(t as usize) {
                            let y = choose|y: int| 0 <= y < wave@.len() && wave@[y] == t as usize;
                            assert(old_level[wave@[y] as int] is None);
                        }
                        assert(level@[t] == old_level[t]);
                    } else {
                        assert(old_level[j] is Some);
                        let k = choose|k: int|
                            0 <= k < dv[j].len() && #[trigger] old_level[dv[j][k] as int] == Some(
                                (old_level[j]->0 - 1) as usize,
                            );
                        let t = dv[j][k] as int;
                        if wave@.contains(t as usize) {
                            let y = choose|y: int| 0 <= y < wave@.len() && wave@[y] == t as usize;
                            assert(old_level[wave@[y] as int] is None);
                        }
                        assert(level@[t] == old_level[t]);
                    }
                }
                assert forall|j: int| 0 <= j < n && (#[trigger] level@[j]) is None && r + 1 > 0 implies exists|k: int|
                    0 <= k < dv[j].len() && ((#[trigger] level@[dv[j][k] as int]) is None || level@[dv[j][k] as int]
                        == Some(r as usize)) by {
                    assert(!wave@.contains(j as usize));
                    assert(old_level[j] is None);
                    assert(!deps_assigned(dv, old_level, j));
                    let k = choose|k: int| 0 <= k < dv[j].len() && !(#[trigger] old_level[dv[j][k] as int] is Some);
                    let t = dv[j][k] as int;
                    assert(old_level[t] is None);
                    assert(level@[t] is None || level@[t] == Some(r as usize));
                }
                assert forall|w: int, x: int|
                    0 <= w < r + 1 && 0 <= x < nv[w].len() implies #[trigger] nv[w][x] < n && level@[nv[w][x] as int]
                        == Some(w as usize) by {
                    if w < r {
                        assert(nv[w] == wv[w]);
                        let e = wv[w][x] as int;
                        assert(old_level[e] == Some(w as usize));
                        if wave@.contains(e as usize) {
                            let y = choose|y: int| 0 <= y < wave@.len() && wave@[y] == e as usize;
                            assert(old_level[wave@[y] as int] is None);
                        }
                    } else {
                        assert(nv[w] == wave@);
                        assert(wave@.contains(wave@[x]));
                    }
                }
                assert forall|j: int| 0 <= j < n && (#[trigger] level@[j]) is Some implies nv[level@[j]->0 as int].contains(
                    j as usize,
                ) by {
                    if wave@.contains(j as usize) {
                        assert(nv[r] == wave@);
                    } else {
                        assert(old_level[j] is Some);
                        assert(nv[old_level[j]->0 as int] == wv[old_level[j]->0 as int]);
                    }
                }
                assert forall|w: int| 0 <= w < r + 1 implies #[trigger] nv[w].len() > 0 by {
                    if w < r {
                        assert(nv[w] == wv[w]);
                    }
                }
                assert forall|w: int, x: int, y: int|
                    0 <= w < r + 1 && 0 <= x < y < nv[w].len() implies #[trigger] nv[w][x] < #[trigger] nv[w][y] by {
                    if w < r {
                        assert(nv[w] == wv[w]);
                    }
                }
            }
        }
        assigned = assigned + wave.len();
        waves.push(wave);
    }
    proof {
        lemma_num_some_bound(level@);
    }
    if assigned < n {
        proof {
            let s = Set::new(|j: int| 0 <= j < n && level@[j] is None);
            let wv = wave_views(waves@);
            let j0 = choose|j: int| 0 <= j < level@.len() && #[trigger] level@[j] is None;
            assert(s.contains(j0));
            assert forall|j: int| #[trigger] s.contains(j) implies 0 <= j < state.steps@.len() && exists|k: int|
                0 <= k < dep_count(state.steps@, j) && s.contains(#[trigger] dep_target(state.steps@, j, k)) by {
                // no wave was collected in the last round, so `j` waits on an unassigned step
                assert(!deps_assigned(dv, level@, j));
                let k = choose|k: int| 0 <= k < dv[j].len() && !(#[trigger] level@[dv[j][k] as int] is Some);
                assert(dv[j][k] as int == dep_target(state.steps@, j, k));
                assert(s.contains(dv[j][k] as int));
            }
            assert(is_cycle(state.steps@, s));
        }
        return Err(PlanError::Cycle);
    }
    proof {
        let wv = wave_views(waves@);
        let lvl = Seq::new(n as nat, |j: int| level@[j]->0 as nat);
        assert forall|j: int, k: int|
            0 <= j < n && 0 <= k < dep_count(state.steps@, j) implies 0 <= #[trigger] dep_target(
                state.steps@,
                j,
                k,
            ) < n && lvl[dep_target(state.steps@, j, k)] < lvl[j] by {
            assert(level@[j] is Some);
            assert(dv[j][k] as int == dep_target(state.steps@, j, k));
            assert(level@[dv[j][k] as int] is Some);
        }
        assert forall|j: int| 0 <= j < n && #[trigger] lvl[j] > 0 implies exists|k: int|
            0 <= k < dep_count(state.steps@, j) && lvl[#[trigger] dep_target(state.steps@, j, k)] == lvl[j] - 1 by {
            assert(level@[j] is Some);
            let k = choose|k: int|
                0 <= k < dv[j].len() && #[trigger] level@[dv[j][k] as int] == Some((level@[j]->0 - 1) as usize);
            assert(dv[j][k] as int == dep_target(state.steps@, j, k));
        }
        assert(is_leveling(state.steps@, lvl));
        assert forall|j: int| 0 <= j < lvl.len() implies #[trigger] lvl[j] < wv.len() by {
            assert(level@[j] is Some);
        }
        assert forall|w: int, x: int| 0 <= w < wv.len() && 0 <= x < wv[w].len() implies #[trigger] wv[w][x] < lvl.len()
            && lvl[wv[w][x] as int] == w by {}
        assert forall|j: int| 0 <= j < lvl.len() implies wv[#[trigger] lvl[j] as int].contains(j as usize) by {
            assert(level@[j] is Some);
        }
        assert(waves_of(wv, lvl));
    }
    Ok(waves)
}

/// Steps of one wave never depend on each other, and every dependency of a
/// step lies in an earlier wave.
pub proof fn law_waves_are_independent(
    steps: Seq<DeployStep>,
    lvl: Seq<nat>,
    waves: Seq<Seq<usize>>,
    w: int,
    a: int,
    k: int,
)
    requires
        is_leveling(steps, lvl),
        waves_of(waves, lvl),
        0 <= w < waves.len(),
        0 <= a < waves[w].len(),
        0 <= k < dep_count(steps, waves[w][a] as int),
    ensures
        !waves[w].contains(dep_target(steps, waves[w][a] as int, k) as usize),
        exists|v: int|
            0 <= v < w && waves[v].contains(dep_target(steps, waves[w][a] as int, k) as usize),
{
    let i = waves[w][a] as int;
    let t = dep_target(steps, i, k);
    assert(0 <= t < steps.len() && lvl[t] < lvl[i]);
    if waves[w].contains(t as usize) {
        let x = choose|x: int| 0 <= x < waves[w].len() && waves[w][x] == t as usize;
        assert(lvl[waves[w][x] as int] == w);
    }
    assert(waves[lvl[t] as int].contains(t as usize));
}

/// Length in bytes of the hash prefix used in a mock address.
pub open spec fn prefix_len(s: &str) -> int {
    if s.len() < 8 {
        s.len() as int
    } else {
        8
    }
}

/// Deterministic mock deployment address for a Wasm hash: a fixed prefix
/// and the first eight bytes of the hash (shared by the sequential and
/// parallel executors, so both produce the same output).
pub fn simulate_deploy_address(wasm_hash: &str, dry_run: bool) -> (r: String)
    requires
        is_char_boundary(wasm_hash.spec_bytes(), prefix_len(wasm_hash)),
    ensures
        exists|p: Seq<char>|
            encode_utf8(p) == wasm_hash.spec_bytes().take(prefix_len(wasm_hash)) && r@ == (if dry_run {
                "C_SIMULATED_"@
            } else {
                "C_LIVE_"@
            }) + p,
{
    let m: usize = if wasm_hash.len() < 8 {
        wasm_hash.len()
    } else {
        8
    };
    let (head, _) = wasm_hash.split_at(m);
    let mut s = if dry_run {
        to_owned_string("C_SIMULATED_")
    } else {
        to_owned_string("C_LIVE_")
    };
    push_str(&mut s, head);
    assert(encode_utf8(head@) == wasm_hash.spec_bytes().take(prefix_len(wasm_hash)));
    s
}


// ── Executing a plan ─────────────────────────────────────────────────────────

/// What the executor does after a step of the plan.
#[derive(Debug, Clone, Copy, PartialEq, Eq, Structural)]
pub enum DeployAction {
    /// Persist the state (with a new `updated_at`), then take the next step.
    Save,
    /// The plan is complete; nothing is left to do.
    Finished,
}

/// The status of a finished plan.
pub open spec fn complete_status(dry_run: bool) -> Seq<char> {
    if dry_run {
        "simulated-complete"@
    } else {
        "complete"@
    }
}

/// The status of a plan being executed.
pub open spec fn running_status(dry_run: bool) -> Seq<char> {
    if dry_run {
        "simulated"@
    } else {
        "executing"@
    }
}

/// Every step is deployed.
pub open spec fn all_deployed(steps: Seq<DeployStep>) -> bool {
    forall|i: int| 0 <= i < steps.len() ==> (#[trigger] steps[i]).status == DeployStepStatus::Deployed
}

/// The step indices of the waves, wave after wave.
pub open spec fn flatten(waves: Seq<Seq<usize>>) -> Seq<usize>
    decreases waves.len(),
{
    if waves.len() == 0 {
        Seq::empty()
    } else {
        flatten(waves.drop_last()) + waves.last()
    }
}

/// The first step, in `order` from position `k` on, that is not deployed yet.
pub open spec fn pending_from(steps: Seq<DeployStep>, order: Seq<usize>, k: int) -> Option<int>
    decreases order.len() - k,
{
    if k < 0 || k >= order.len() {
        None
    } else if (order[k] as int) < steps.len() && steps[order[k] as int].status
        != DeployStepStatus::Deployed {
        Some(order[k] as int)
    } else {
        pending_from(steps, order, k + 1)
    }
}

/// The bytes of a step's Wasm hash.
pub open spec fn hash_bytes(step: DeployStep) -> Seq<u8> {
    encode_utf8(step.wasm_hash@)
}

/// Bytes of the hash that go into a mock address.
pub open spec fn byte_prefix_len(b: Seq<u8>) -> int {
    if b.len() < 8 {
        b.len() as int
    } else {
        8
    }
}

/// Every step's hash can be cut after its first eight bytes (what
/// `simulate_deploy_address` needs) and fits in memory.
pub open spec fn hashes_usable(steps: Seq<DeployStep>) -> bool {
    forall|i: int|
        0 <= i < steps.len() ==> is_char_boundary(
            hash_bytes(#[trigger] steps[i]),
            byte_prefix_len(hash_bytes(steps[i])),
        ) && hash_bytes(steps[i]).len() <= usize::MAX
}

/// `a` is the mock address of a hash with bytes `b`.
pub open spec fn is_mock_address(b: Seq<u8>, dry_run: bool, a: Seq<char>) -> bool {
    exists|p: Seq<char>|
        encode_utf8(p) == b.take(byte_prefix_len(b)) && a == (if dry_run {
            "C_SIMULATED_"@
        } else {
            "C_LIVE_"@
        }) + p
}

/// `s1` is step `s0` deployed at its mock address.
pub open spec fn deployed_as(s0: DeployStep, s1: DeployStep, dry_run: bool) -> bool {
    &&& s1 == (DeployStep {
        status: DeployStepStatus::Deployed,
        deployed_address: s1.deployed_address,
        ..s0
    })
    &&& s1.deployed_address matches Some(a) && is_mock_address(hash_bytes(s0), dry_run, a@)
}

/// One step of executing a plan whose status is not complete yet: a plan
/// whose steps are all deployed completes with no work; otherwise it is
/// marked as executing first; then the first step not deployed yet, in wave
/// order, is deployed (steps already deployed are skipped); when none is
/// left the plan completes.
pub open spec fn plan_stepped(s0: DeploymentState, s1: DeploymentState, dry_run: bool, order: Seq<usize>) -> bool {
    if s0.steps@.len() > 0 && all_deployed(s0.steps@) {
        s1 == (DeploymentState { status: s1.status, ..s0 }) && s1.status@ == complete_status(dry_run)
    } else if s0.status@ != running_status(dry_run) {
        s1 == (DeploymentState { status: s1.status, ..s0 }) && s1.status@ == running_status(dry_run)
    } else {
        match pending_from(s0.steps@, order, 0) {
            Some(i) => {
                &&& s1 == (DeploymentState { steps: s1.steps, ..s0 })
                &&& s1.steps@.len() == s0.steps@.len()
                &&& forall|j: int| 0 <= j < s0.steps@.len() && j != i ==> s1.steps@[j] == s0.steps@[j]
                &&& deployed_as(s0.steps@[i], s1.steps@[i], dry_run)
            },
            None => s1 == (DeploymentState { status: s1.status, ..s0 }) && s1.status@
                == complete_status(dry_run),
        }
    }
}

fn flatten_waves(waves: &Vec<Vec<usize>>) -> (r: Vec<usize>)
    ensures
        r@ == flatten(wave_views(waves@)),
{
    let mut out: Vec<usize> = Vec::new();
    let mut w: usize = 0;
    while w < waves.len()
        invariant
            w <= waves@.len(),
            out@ == flatten(wave_views(waves@).take(w as int)),
        decreases waves@.len() - w,
    {
        let ghost before = out@;
        let mut k: usize = 0;
        while k < waves[w].len()
            invariant
                w < waves@.len(),
                k <= waves@[w as int]@.len(),
                out@ == before + waves@[w as int]@.take(k as int),
            decreases waves@[w as int]@.len() - k,
        {
            out.push(waves[w][k]);
            k += 1;
            assert(out@ =~= before + waves@[w as int]@.take(k as int));
        }
        proof {
            let t = wave_views(waves@).take(w + 1);
            assert(t.drop_last() =~= wave_views(waves@).take(w as int));
            assert(waves@[w as int]@.take(k as int) =~= waves@[w as int]@);
        }
        w += 1;
    }
    assert(wave_views(waves@).take(w as int) =~= wave_views(waves@));
    out
}

/// Take one step of executing `state`: the decisions of the parallel (and,
/// with one worker, the sequential) executor, whose caller persists the
/// state after every `Save`, holds the deployment lock and stamps the time.
/// `waves` are the plan's dependency waves; a step whose dependencies are
/// deployed never waits for another, so one worker or many give the same
/// states. Already deployed steps are skipped, and a plan whose steps are all
/// deployed completes with no work.
pub fn plan_step(state: &mut DeploymentState, dry_run: bool, waves: &Vec<Vec<usize>>) -> (r: DeployAction)
    requires
        hashes_usable(old(state).steps@),
    ensures
        old(state).status@ == complete_status(dry_run) ==> r == DeployAction::Finished
            && *final(state) == *old(state),
        old(state).status@ != complete_status(dry_run) ==> r == DeployAction::Save && plan_stepped(
            *old(state),
            *final(state),
            dry_run,
            flatten(wave_views(waves@)),
        ),
{
    let complete = if dry_run {
        "simulated-complete"
    } else {
        "complete"
    };
    let running = if dry_run {
        "simulated"
    } else {
        "executing"
    };
    assert(complete@ == complete_status(dry_run));
    assert(running@ == running_status(dry_run));
    if str_eq(state.status.as_str(), complete) {
        return DeployAction::Finished;
    }
    let mut all = true;
    let mut i: usize = 0;
    while i < state.steps.len()
        invariant
            i <= state.steps@.len(),
            all == forall|j: int| 0 <= j < i ==> (#[trigger] state.steps@[j]).status == DeployStepStatus::Deployed,
        decreases state.steps@.len() - i,
    {
        if state.steps[i].status != DeployStepStatus::Deployed {
            all = false;
        }
        i += 1;
    }
    if state.steps.len() > 0 && all {
        state.status = to_owned_string(complete);
        return DeployAction::Save;
    }
    if !str_eq(state.status.as_str(), running) {
        state.status = to_owned_string(running);
        return DeployAction::Save;
    }
    let order = flatten_waves(waves);
    let ghost steps0 = state.steps@;
    let mut found: Option<usize> = None;
    let mut k: usize = 0;
    while k < order.len() && found.is_none()
        invariant
            k <= order@.len(),
            steps0 == state.steps@,
            found is None ==> pending_from(steps0, order@, 0) == pending_from(steps0, order@, k as int),
            found matches Some(i) ==> pending_from(steps0, order@, 0) == Some(i as int) && i
                < steps0.len(),
        decreases order@.len() - k + if found is None {
            1int
        } else {
            0int
        },
    {
        let idx = order[k];
        if idx < state.steps.len() && state.steps[idx].status != DeployStepStatus::Deployed {
            found = Some(idx);
        } else {
            k += 1;
        }
    }
    match found {
        Some(i) => {
            assert(pending_from(steps0, order@, 0) == Some(i as int));
            let ghost before = state.steps@;
            let step = state.steps.remove(i);
            let h = step.wasm_hash.as_str();
            assert(h.spec_bytes() == hash_bytes(before[i as int]));
            let address = simulate_deploy_address(h, dry_run);
            let next = DeployStep {
                contract_id: step.contract_id,
                wasm: step.wasm,
                wasm_hash: step.wasm_hash,
                status: DeployStepStatus::Deployed,
                deployed_address: Some(address),
                error: step.error,
                order: step.order,
                depends_on: step.depends_on,
            };
            let ghost nx = next;
            assert(deployed_as(before[i as int], nx, dry_run));
            state.steps.insert(i, next);
            assert(state.steps@ =~= before.update(i as int, nx));
            DeployAction::Save
        },
        None => {
            state.status = to_owned_string(complete);
            DeployAction::Save
        },
    }
}

/// The ids of the deployed steps from index `i` on, last step first.
pub open spec fn rolled_back_ids(steps: Seq<DeployStep>, i: int) -> Seq<Seq<char>>
    decreases steps.len() - i,
{
    if i < 0 || i >= steps.len() {
        Seq::empty()
    } else {
        rolled_back_ids(steps, i + 1) + if steps[i].status == DeployStepStatus::Deployed {
            seq![steps[i].contract_id@]
        } else {
            Seq::empty()
        }
    }
}

/// A step after a roll-back: a deployed step is rolled back and loses its
/// address; any other step is unchanged.
pub open spec fn rolled_back_step(s: DeployStep) -> DeployStep {
    if s.status == DeployStepStatus::Deployed {
        DeployStep { status: DeployStepStatus::RolledBack, deployed_address: None, ..s }
    } else {
        s
    }
}

/// Roll back the deployed steps, last first: each becomes `RolledBack` and
/// loses its address, and the plan's status becomes `rolled-back`. Returns
/// the rolled-back ids in that order. (The caller stamps `updated_at` and
/// persists the state.)
pub fn mark_rolled_back(state: &mut DeploymentState) -> (r: Vec<String>)
    ensures
        *final(state) == (DeploymentState { steps: final(state).steps, status: final(state).status, ..*old(state) }),
        final(state).status@ == "rolled-back"@,
        final(state).steps@.len() == old(state).steps@.len(),
        forall|i: int|
            0 <= i < old(state).steps@.len() ==> #[trigger] final(state).steps@[i] == rolled_back_step(
                old(state).steps@[i],
            ),
        string_views(r@) == rolled_back_ids(old(state).steps@, 0),
{
    let ghost s0 = state.steps@;
    let mut ids: Vec<String> = Vec::new();
    let mut i: usize = state.steps.len();
    assert(string_views(ids@) =~= Seq::<Seq<char>>::empty());
    while i > 0
        invariant
            i <= s0.len(),
            state.steps@.len() == s0.len(),
            *state == (DeploymentState { steps: state.steps, ..*old(state) }),
            s0 == old(state).steps@,
            forall|j: int| 0 <= j < i ==> #[trigger] state.steps@[j] == s0[j],
            forall|j: int| i <= j < s0.len() ==> #[trigger] state.steps@[j] == rolled_back_step(s0[j]),
            string_views(ids@) == rolled_back_ids(s0, i as int),
        decreases i,
    {
        i -= 1;
        if state.steps[i].status == DeployStepStatus::Deployed {
            let ghost before = state.steps@;
            let step = state.steps.remove(i);
            let id = to_owned_string(step.contract_id.as_str());
            let next = DeployStep {
                contract_id: step.contract_id,
                wasm: step.wasm,
                wasm_hash: step.wasm_hash,
                status: DeployStepStatus::RolledBack,
                deployed_address: None,
                error: step.error,
                order: step.order,
                depends_on: step.depends_on,
            };
            state.steps.insert(i, next);
            assert(state.steps@ =~= before.update(i as int, rolled_back_step(s0[i as int])));
            proof {
                lemma_string_views_push(ids@, id);
            }
            ids.push(id);
        } else {
            assert(Seq::<Seq<char>>::empty() + string_views(ids@) =~= string_views(ids@));
        }
        assert(string_views(ids@) =~= rolled_back_ids(s0, i as int));
    }
    state.status = to_owned_string("rolled-back");
    ids
}

} // verus!
