//! Deployment manifests: the contracts to deploy, their dependencies, and
//! the order in which they deploy (every dependency first).

use vstd::prelude::*;
use crate::text::{decimal, decimal_string, join, join_spec, push_str, str_eq, str_lt, seq_lt, string_views, to_owned_string};
use crate::text::{lemma_seq_lt_asym, lemma_seq_lt_total, lemma_seq_lt_trans};

verus! {

/// One contract of a manifest.
#[derive(Debug, Clone, PartialEq, Eq)]
pub struct ManifestContract {
    pub id: String,
    /// Path of the contract's Wasm.
    pub wasm: String,
    /// Contracts that must be deployed first.
    pub depends_on: Vec<String>,
    /// Constructor arguments, as JSON text.
    pub init_args: Option<String>,
}

/// A deployment manifest.
#[derive(Debug, Clone, PartialEq, Eq)]
pub struct DeployManifest {
    pub name: String,
    pub network: String,
    pub wallet: Option<String>,
    pub contracts: Vec<ManifestContract>,
}

/// The ids of the contracts, in manifest order.
pub open spec fn contract_ids(cs: Seq<ManifestContract>) -> Seq<Seq<char>> {
    cs.map_values(|c: ManifestContract| c.id@)
}

/// The dependencies of a contract.
pub open spec fn deps_of(c: ManifestContract) -> Seq<Seq<char>> {
    string_views(c.depends_on@)
}

/// What is wrong with dependency `d` of the contract `id`, if anything.
pub open spec fn dep_problem(id: Seq<char>, d: Seq<char>, ids: Seq<Seq<char>>) -> Option<Seq<char>> {
    if !ids.contains(d) {
        Some("Contract '"@ + id + "' depends on unknown contract '"@ + d + "'"@)
    } else if d == id {
        Some("Contract '"@ + id + "' cannot depend on itself"@)
    } else {
        None
    }
}

/// The first problem among the dependencies `ds` of the contract `id`.
pub open spec fn first_dep_problem(id: Seq<char>, ds: Seq<Seq<char>>, ids: Seq<Seq<char>>) -> Option<Seq<char>>
    decreases ds.len(),
{
    if ds.len() == 0 {
        None
    } else {
        match first_dep_problem(id, ds.drop_last(), ids) {
            Some(e) => Some(e),
            None => dep_problem(id, ds.last(), ids),
        }
    }
}

/// The first dependency problem of the contracts `cs` (in manifest order,
/// each contract's dependencies in order), against all the manifest's ids.
pub open spec fn manifest_problem(cs: Seq<ManifestContract>, ids: Seq<Seq<char>>) -> Option<Seq<char>>
    decreases cs.len(),
{
    if cs.len() == 0 {
        None
    } else {
        match manifest_problem(cs.drop_last(), ids) {
            Some(e) => Some(e),
            None => first_dep_problem(cs.last().id@, deps_of(cs.last()), ids),
        }
    }
}

/// No id occurs twice.
pub open spec fn distinct(s: Seq<Seq<char>>) -> bool {
    forall|i: int, j: int| 0 <= i < j < s.len() ==> #[trigger] s[i] != #[trigger] s[j]
}

/// `a` comes before `b` in `o`.
pub open spec fn precedes(o: Seq<Seq<char>>, a: Seq<char>, b: Seq<char>) -> bool {
    exists|p: int, q: int| 0 <= p < q < o.len() && #[trigger] o[p] == a && #[trigger] o[q] == b
}

/// `o` lists every contract of `cs` once, each after all its dependencies.
pub open spec fn is_deploy_order(cs: Seq<ManifestContract>, o: Seq<Seq<char>>) -> bool {
    &&& o.len() == cs.len()
    &&& distinct(o)
    &&& forall|i: int| 0 <= i < cs.len() ==> o.contains(#[trigger] cs[i].id@)
    &&& forall|p: int| 0 <= p < o.len() ==> contract_ids(cs).contains(#[trigger] o[p])
    &&& forall|i: int, k: int|
        0 <= i < cs.len() && 0 <= k < deps_of(cs[i]).len() ==> precedes(o, #[trigger] deps_of(cs[i])[k], cs[i].id@)
}

/// The error for a manifest with no deploy order.
pub open spec fn circular_message() -> Seq<char> {
    "Circular dependency detected in deployment manifest"@
}

// ── Checking dependencies ────────────────────────────────────────────────────

/// Whether `ids` contains `d`.
fn has_id(ids: &Vec<String>, d: &str) -> (r: bool)
    ensures
        r == string_views(ids@).contains(d@),
{
    let mut i: usize = 0;
    while i < ids.len()
        invariant
            i <= ids@.len(),
            forall|q: int| 0 <= q < i ==> (#[trigger] ids@[q])@ != d@,
        decreases ids@.len() - i,
    {
        if str_eq(ids[i].as_str(), d) {
            assert(string_views(ids@)[i as int] == d@);
            return true;
        }
        i += 1;
    }
    proof {
        if string_views(ids@).contains(d@) {
            let q = choose|q: int| 0 <= q < ids@.len() && string_views(ids@)[q] == d@;
            assert(ids@[q]@ == d@);
        }
    }
    false
}

/// The first dependency problem of a manifest.
fn check_dependencies(cs: &Vec<ManifestContract>, ids: &Vec<String>) -> (r: Option<String>)
    requires
        string_views(ids@) == contract_ids(cs@),
    ensures
        match manifest_problem(cs@, contract_ids(cs@)) {
            Some(m) => r matches Some(e) && e@ == m,
            None => r is None,
        },
{
    let ghost all = contract_ids(cs@);
    let mut i: usize = 0;
    while i < cs.len()
        invariant
            all == contract_ids(cs@),
            string_views(ids@) == all,
            i <= cs@.len(),
            manifest_problem(cs@.take(i as int), all) is None,
        decreases cs@.len() - i,
    {
        assert(cs@.take(i + 1).drop_last() =~= cs@.take(i as int));
        let c = &cs[i];
        let ghost ds = deps_of(cs@[i as int]);
        let mut k: usize = 0;
        while k < c.depends_on.len()
            invariant
                i < cs@.len(),
                c == cs@[i as int],
                ds == deps_of(cs@[i as int]),
                string_views(ids@) == all,
                k <= ds.len(),
                first_dep_problem(c.id@, ds.take(k as int), all) is None,
                all == contract_ids(cs@),
                manifest_problem(cs@.take(i as int), all) is None,
                cs@.take(i + 1).drop_last() == cs@.take(i as int),
            decreases ds.len() - k,
        {
            assert(ds.take(k + 1).drop_last() =~= ds.take(k as int));
            let d = c.depends_on[k].as_str();
            assert(ds[k as int] == d@);
            if !has_id(ids, d) {
                let mut m = to_owned_string("Contract '");
                push_str(&mut m, c.id.as_str());
                push_str(&mut m, "' depends on unknown contract '");
                push_str(&mut m, d);
                push_str(&mut m, "'");
                proof {
                    assert(ds.take(k + 1).last() == d@);
                    assert(first_dep_problem(c.id@, ds.take(k + 1), all) == Some(m@));
                    lemma_first_problem_prefix(c.id@, ds, k as int + 1, all);
                    assert(cs@.take(i + 1).last() == cs@[i as int]);
                    assert(manifest_problem(cs@.take(i + 1), all) == Some(m@));
                    lemma_manifest_problem_prefix(cs@, i as int + 1, all);
                }
                return Some(m);
            }
            if str_eq(d, c.id.as_str()) {
                let mut m = to_owned_string("Contract '");
                push_str(&mut m, c.id.as_str());
                push_str(&mut m, "' cannot depend on itself");
                proof {
                    assert(ds.take(k + 1).last() == d@);
                    assert(all.contains(d@));
                    assert(first_dep_problem(c.id@, ds.take(k + 1), all) == Some(m@));
                    lemma_first_problem_prefix(c.id@, ds, k as int + 1, all);
                    assert(cs@.take(i + 1).last() == cs@[i as int]);
                    assert(manifest_problem(cs@.take(i + 1), all) == Some(m@));
                    lemma_manifest_problem_prefix(cs@, i as int + 1, all);
                }
                return Some(m);
            }
            k += 1;
        }
        assert(ds.take(k as int) =~= ds);
        i += 1;
    }
    assert(cs@.take(i as int) =~= cs@);
    None
}

/// A problem found in a prefix of the dependencies is the first problem.
proof fn lemma_first_problem_prefix(id: Seq<char>, ds: Seq<Seq<char>>, n: int, ids: Seq<Seq<char>>)
    requires
        0 <= n <= ds.len(),
        first_dep_problem(id, ds.take(n), ids) is Some,
    ensures
        first_dep_problem(id, ds, ids) == first_dep_problem(id, ds.take(n), ids),
    decreases ds.len() - n,
{
    if n < ds.len() {
        assert(ds.take(n + 1).drop_last() =~= ds.take(n));
        lemma_first_problem_prefix(id, ds, n + 1, ids);
    } else {
        assert(ds.take(n) =~= ds);
    }
}

/// A problem found in a prefix of the manifest is the first problem.
proof fn lemma_manifest_problem_prefix(cs: Seq<ManifestContract>, n: int, ids: Seq<Seq<char>>)
    requires
        0 <= n <= cs.len(),
        manifest_problem(cs.take(n), ids) is Some,
    ensures
        manifest_problem(cs, ids) == manifest_problem(cs.take(n), ids),
    decreases cs.len() - n,
{
    if n < cs.len() {
        assert(cs.take(n + 1).drop_last() =~= cs.take(n));
        lemma_manifest_problem_prefix(cs, n + 1, ids);
    } else {
        assert(cs.take(n) =~= cs);
    }
}


// ── Ordering ─────────────────────────────────────────────────────────────────

/// Dependencies among `t` whose contract is not done yet.
pub open spec fn pend(t: Seq<usize>, done: Seq<bool>) -> nat
    decreases t.len(),
{
    if t.len() == 0 {
        0
    } else {
        pend(t.drop_last(), done) + if done[t.last() as int] {
            0nat
        } else {
            1nat
        }
    }
}

proof fn lemma_pend_zero(t: Seq<usize>, done: Seq<bool>)
    ensures
        pend(t, done) == 0 <==> forall|k: int| 0 <= k < t.len() ==> done[#[trigger] t[k] as int],
    decreases t.len(),
{
    if t.len() > 0 {
        lemma_pend_zero(t.drop_last(), done);
        if pend(t, done) == 0 {
            assert forall|k: int| 0 <= k < t.len() implies done[#[trigger] t[k] as int] by {
                if k < t.len() - 1 {
                    assert(t.drop_last()[k] == t[k]);
                }
            }
        } else {
            if done[t.last() as int] {
                let k = choose|k: int| 0 <= k < t.drop_last().len() && !done[#[trigger] t.drop_last()[k] as int];
                assert(t[k] == t.drop_last()[k]);
            }
        }
    }
}

proof fn lemma_pend_mono(t: Seq<usize>, d1: Seq<bool>, d2: Seq<bool>)
    requires
        forall|k: int| 0 <= k < t.len() && d1[#[trigger] t[k] as int] ==> d2[t[k] as int],
    ensures
        pend(t, d2) <= pend(t, d1),
    decreases t.len(),
{
    if t.len() > 0 {
        assert forall|k: int| 0 <= k < t.drop_last().len() && d1[#[trigger] t.drop_last()[k] as int] implies d2[t.drop_last()[k] as int] by {
            assert(t.drop_last()[k] == t[k]);
        }
        lemma_pend_mono(t.drop_last(), d1, d2);
        assert(t.last() == t[t.len() - 1]);
    }
}

/// `tg[x][k]` is the contract that the `k`-th dependency of contract `x`
/// names.
pub open spec fn targets_of(cs: Seq<ManifestContract>, tg: Seq<Seq<usize>>) -> bool {
    &&& tg.len() == cs.len()
    &&& forall|x: int|
        0 <= x < cs.len() ==> (#[trigger] tg[x]).len() == deps_of(cs[x]).len()
    &&& forall|x: int, k: int|
        0 <= x < cs.len() && 0 <= k < tg[x].len() ==> (#[trigger] tg[x][k]) < cs.len()
            && cs[tg[x][k] as int].id@ == deps_of(cs[x])[k]
}

/// Index of the contract with id `d`.
fn find_contract(cs: &Vec<ManifestContract>, d: &str) -> (r: usize)
    requires
        contract_ids(cs@).contains(d@),
    ensures
        r < cs@.len(),
        cs@[r as int].id@ == d@,
{
    let ghost all = contract_ids(cs@);
    let mut i: usize = 0;
    while i < cs.len()
        invariant
            i <= cs@.len(),
            all == contract_ids(cs@),
            all.contains(d@),
            forall|q: int| 0 <= q < i ==> (#[trigger] cs@[q]).id@ != d@,
        decreases cs@.len() - i,
    {
        if str_eq(cs[i].id.as_str(), d) {
            return i;
        }
        i += 1;
    }
    proof {
        let q = choose|q: int| 0 <= q < all.len() && all[q] == d@;
        assert(cs@[q].id@ == d@);
    }
    0
}

/// The contract each dependency names.
fn dependency_targets(cs: &Vec<ManifestContract>) -> (tg: Vec<Vec<usize>>)
    requires
        manifest_problem(cs@, contract_ids(cs@)) is None,
    ensures
        targets_of(cs@, tg@.map_values(|v: Vec<usize>| v@)),
{
    let ghost all = contract_ids(cs@);
    let mut tg: Vec<Vec<usize>> = Vec::new();
    let mut x: usize = 0;
    while x < cs.len()
        invariant
            all == contract_ids(cs@),
            manifest_problem(cs@, all) is None,
            x <= cs@.len(),
            tg@.len() == x,
            forall|y: int| 0 <= y < x ==> (#[trigger] tg@[y])@.len() == deps_of(cs@[y]).len(),
            forall|y: int, k: int|
                0 <= y < x && 0 <= k < tg@[y]@.len() ==> (#[trigger] tg@[y]@[k]) < cs@.len()
                    && cs@[tg@[y]@[k] as int].id@ == deps_of(cs@[y])[k],
        decreases cs@.len() - x,
    {
        let c = &cs[x];
        let ghost ds = deps_of(cs@[x as int]);
        let mut t: Vec<usize> = Vec::new();
        let mut k: usize = 0;
        proof {
            lemma_no_problem_deps_known(cs@, all, x as int);
        }
        while k < c.depends_on.len()
            invariant
                x < cs@.len(),
                c == cs@[x as int],
                ds == deps_of(cs@[x as int]),
                all == contract_ids(cs@),
                forall|q: int| 0 <= q < ds.len() ==> all.contains(#[trigger] ds[q]),
                k <= ds.len(),
                t@.len() == k,
                forall|q: int| 0 <= q < k ==> (#[trigger] t@[q]) < cs@.len() && cs@[t@[q] as int].id@ == ds[q],
            decreases ds.len() - k,
        {
            assert(ds[k as int] == c.depends_on@[k as int]@);
            let j = find_contract(cs, c.depends_on[k].as_str());
            t.push(j);
            k += 1;
        }
        tg.push(t);
        x += 1;
    }
    let ghost tv = tg@.map_values(|v: Vec<usize>| v@);
    assert forall|y: int| 0 <= y < cs@.len() implies (#[trigger] tv[y]).len() == deps_of(cs@[y]).len() by {
        assert(tv[y] == tg@[y]@);
    }
    assert forall|y: int, k: int| 0 <= y < cs@.len() && 0 <= k < tv[y].len() implies (#[trigger] tv[y][k]) < cs@.len()
        && cs@[tv[y][k] as int].id@ == deps_of(cs@[y])[k] by {
        assert(tv[y] == tg@[y]@);
    }
    tg
}

/// Without a dependency problem, every dependency names a contract other
/// than its own.
proof fn lemma_no_problem_deps_known(cs: Seq<ManifestContract>, ids: Seq<Seq<char>>, x: int)
    requires
        0 <= x < cs.len(),
        manifest_problem(cs, ids) is None,
    ensures
        forall|q: int| 0 <= q < deps_of(cs[x]).len() ==> ids.contains(#[trigger] deps_of(cs[x])[q])
            && deps_of(cs[x])[q] != cs[x].id@,
    decreases cs.len(),
{
    if x < cs.len() - 1 {
        lemma_no_problem_deps_known(cs.drop_last(), ids, x);
        assert(cs.drop_last()[x] == cs[x]);
    } else {
        lemma_no_dep_problem(cs[x].id@, deps_of(cs[x]), ids);
    }
}

proof fn lemma_no_dep_problem(id: Seq<char>, ds: Seq<Seq<char>>, ids: Seq<Seq<char>>)
    requires
        first_dep_problem(id, ds, ids) is None,
    ensures
        forall|q: int| 0 <= q < ds.len() ==> ids.contains(#[trigger] ds[q]) && ds[q] != id,
    decreases ds.len(),
{
    if ds.len() > 0 {
        lemma_no_dep_problem(id, ds.drop_last(), ids);
        assert forall|q: int| 0 <= q < ds.len() implies ids.contains(#[trigger] ds[q]) && ds[q] != id by {
            if q < ds.len() - 1 {
                assert(ds.drop_last()[q] == ds[q]);
            }
        }
    }
}

/// Whether all dependencies in `t` are done.
fn all_done(t: &Vec<usize>, done: &Vec<bool>) -> (r: bool)
    requires
        forall|k: int| 0 <= k < t@.len() ==> (#[trigger] t@[k]) < done@.len(),
    ensures
        r == (pend(t@, done@) == 0),
{
    proof {
        lemma_pend_zero(t@, done@);
    }
    let mut k: usize = 0;
    while k < t.len()
        invariant
            k <= t@.len(),
            forall|q: int| 0 <= q < t@.len() ==> (#[trigger] t@[q]) < done@.len(),
            forall|q: int| 0 <= q < k ==> done@[#[trigger] t@[q] as int],
        decreases t@.len() - k,
    {
        if !done[t[k]] {
            proof {
                lemma_pend_zero(t@, done@);
            }
            return false;
        }
        k += 1;
    }
    true
}

/// Trues in a sequence of flags.
pub open spec fn count_true(s: Seq<bool>) -> nat
    decreases s.len(),
{
    if s.len() == 0 {
        0
    } else {
        count_true(s.drop_last()) + if s.last() {
            1nat
        } else {
            0nat
        }
    }
}

proof fn lemma_count_true_set(s: Seq<bool>, i: int)
    requires
        0 <= i < s.len(),
        !s[i],
    ensures
        count_true(s.update(i, true)) == count_true(s) + 1,
    decreases s.len(),
{
    if i == s.len() - 1 {
        assert(s.update(i, true).drop_last() =~= s.drop_last());
    } else {
        lemma_count_true_set(s.drop_last(), i);
        assert(s.update(i, true).drop_last() =~= s.drop_last().update(i, true));
    }
}

proof fn lemma_count_true_bound(s: Seq<bool>)
    ensures
        count_true(s) <= s.len(),
        count_true(s) == s.len() ==> forall|i: int| 0 <= i < s.len() ==> #[trigger] s[i],
        count_true(s) < s.len() ==> exists|i: int| 0 <= i < s.len() && !#[trigger] s[i],
    decreases s.len(),
{
    if s.len() > 0 {
        lemma_count_true_bound(s.drop_last());
        if count_true(s) == s.len() {
            assert forall|i: int| 0 <= i < s.len() implies #[trigger] s[i] by {
                if i < s.len() - 1 {
                    assert(s[i] == s.drop_last()[i]);
                }
            }
        }
        if count_true(s) < s.len() {
            if !s.last() {
                assert(!s[s.len() - 1]);
            } else {
                let j = choose|j: int| 0 <= j < s.drop_last().len() && !#[trigger] s.drop_last()[j];
                assert(!s[j]);
            }
        }
    }
}

proof fn lemma_count_true_none(s: Seq<bool>)
    requires
        forall|i: int| 0 <= i < s.len() ==> !#[trigger] s[i],
    ensures
        count_true(s) == 0,
    decreases s.len(),
{
    if s.len() > 0 {
        assert forall|i: int| 0 <= i < s.drop_last().len() implies !#[trigger] s.drop_last()[i] by {
            assert(s.drop_last()[i] == s[i]);
        }
        lemma_count_true_none(s.drop_last());
        assert(!s[s.len() - 1]);
    }
}

/// The state of the ordering: `out` lists the contracts queued so far (in
/// queue order), the first `h` of which are done; a contract is queued
/// exactly when all its dependencies are done, and sits after them.
pub open spec fn order_state(
    tg: Seq<Seq<usize>>,
    n: int,
    out: Seq<usize>,
    h: int,
    done: Seq<bool>,
    queued: Seq<bool>,
) -> bool {
    &&& tg.len() == n
    &&& done.len() == n
    &&& queued.len() == n
    &&& forall|x: int, k: int| 0 <= x < n && 0 <= k < tg[x].len() ==> (#[trigger] tg[x][k]) < n
    &&& 0 <= h <= out.len()
    &&& forall|p: int| 0 <= p < out.len() ==> (#[trigger] out[p]) < n && queued[out[p] as int]
    &&& forall|p: int, q: int| 0 <= p < q < out.len() ==> #[trigger] out[p] != #[trigger] out[q]
    &&& count_true(queued) == out.len()
    &&& forall|y: int| 0 <= y < n && #[trigger] queued[y] ==> exists|p: int| 0 <= p < out.len() && out[p] == y
    &&& forall|y: int| 0 <= y < n ==> (#[trigger] done[y] <==> exists|p: int| 0 <= p < h && out[p] == y)
    &&& forall|p: int, k: int|
        0 <= p < out.len() && 0 <= k < tg[out[p] as int].len() ==> exists|q: int|
            0 <= q < p && out[q] == #[trigger] tg[out[p] as int][k]
}


/// Every contract is queued exactly when its dependencies are all done.
pub open spec fn queue_exact(tg: Seq<Seq<usize>>, n: int, done: Seq<bool>, queued: Seq<bool>) -> bool {
    forall|y: int| 0 <= y < n ==> (#[trigger] queued[y] <==> pend(tg[y], done) == 0)
}

/// Flags all false.
fn all_false(n: usize) -> (r: Vec<bool>)
    ensures
        r@.len() == n,
        forall|i: int| 0 <= i < n ==> !#[trigger] r@[i],
{
    let mut r: Vec<bool> = Vec::new();
    let mut i: usize = 0;
    while i < n
        invariant
            i <= n,
            r@.len() == i,
            forall|q: int| 0 <= q < i ==> !#[trigger] r@[q],
        decreases n - i,
    {
        r.push(false);
        i += 1;
    }
    r
}

/// Queues, smallest id first, every contract without dependencies.
fn initial_queue(cs: &Vec<ManifestContract>, tg: &Vec<Vec<usize>>, done: &Vec<bool>) -> (r: (Vec<usize>, Vec<bool>))
    requires
        tg@.len() == cs@.len(),
        done@.len() == cs@.len(),
        forall|x: int, k: int|
            0 <= x < cs@.len() && 0 <= k < tg@[x]@.len() ==> (#[trigger] tg@[x]@[k]) < cs@.len(),
        forall|i: int| 0 <= i < cs@.len() ==> !#[trigger] done@[i],
    ensures
        order_state(tg@.map_values(|v: Vec<usize>| v@), cs@.len() as int, r.0@, 0, done@, r.1@),
        queue_exact(tg@.map_values(|v: Vec<usize>| v@), cs@.len() as int, done@, r.1@),
{
    let n = cs.len();
    let ghost tv = tg@.map_values(|v: Vec<usize>| v@);
    let mut queued = all_false(n);
    let mut out: Vec<usize> = Vec::new();
    proof {
        lemma_count_true_none(queued@);
        assert forall|x: int| 0 <= x < n implies (#[trigger] tv[x]).len() == tg@[x]@.len() by {}
    }
    loop
        invariant
            n == cs@.len(),
            tv == tg@.map_values(|v: Vec<usize>| v@),
            tg@.len() == n,
            done@.len() == n,
            forall|i: int| 0 <= i < n ==> !#[trigger] done@[i],
            forall|x: int, k: int| 0 <= x < n && 0 <= k < tg@[x]@.len() ==> (#[trigger] tg@[x]@[k]) < n,
            order_state(tv, n as int, out@, 0, done@, queued@),
            forall|y: int| 0 <= y < n && #[trigger] queued@[y] ==> tv[y].len() == 0,
        decreases n - out@.len(),
    {
        let mut best: usize = n;
        let mut x: usize = 0;
        while x < n
            invariant
                n == cs@.len(),
                queued@.len() == n,
                tg@.len() == n,
                x <= n,
                best == n || (best < x && !queued@[best as int] && tg@[best as int]@.len() == 0),
                best == n ==> forall|y: int| 0 <= y < x ==> #[trigger] queued@[y] || tg@[y]@.len() != 0,
            decreases n - x,
        {
            if !queued[x] && tg[x].len() == 0 {
                if best == n || str_lt(cs[x].id.as_str(), cs[best].id.as_str()) {
                    best = x;
                }
            }
            x += 1;
        }
        if best == n {
            proof {
                assert forall|y: int| 0 <= y < n implies (#[trigger] queued@[y] <==> pend(tv[y], done@) == 0) by {
                    lemma_pend_zero(tv[y], done@);
                    assert(tv[y] == tg@[y]@);
                    if tv[y].len() > 0 {
                        assert(!done@[tv[y][0] as int]);
                    }
                }
            }
            return (out, queued);
        }
        proof {
            lemma_count_true_set(queued@, best as int);
            lemma_count_true_bound(queued@.update(best as int, true));
            assert(!queued@[best as int]);
            assert forall|p: int| 0 <= p < out@.len() implies out@[p] != best by {
                assert(queued@[out@[p] as int]);
            }
        }
        let ghost q0 = queued@;
        let ghost o0 = out@;
        queued.set(best, true);
        out.push(best);
        proof {
            assert(tv[best as int] == tg@[best as int]@);
            assert forall|y: int| 0 <= y < n && #[trigger] queued@[y] implies exists|p: int|
                0 <= p < out@.len() && out@[p] == y by {
                if y == best {
                    assert(out@[o0.len() as int] == y);
                } else {
                    assert(q0[y]);
                    let p = choose|p: int| 0 <= p < o0.len() && o0[p] == y;
                    assert(out@[p] == y);
                }
            }
            assert forall|p: int, k: int|
                0 <= p < out@.len() && 0 <= k < tv[out@[p] as int].len() implies exists|q: int|
                0 <= q < p && out@[q] == #[trigger] tv[out@[p] as int][k] by {
                if p < o0.len() {
                    assert(out@[p] == o0[p]);
                    assert(q0[o0[p] as int]);
                }
            }
            assert forall|y: int| 0 <= y < n implies (#[trigger] done@[y] <==> exists|p: int| 0 <= p < 0 && out@[p] == y) by {}
        }
    }
}


/// Takes queued contracts in turn, marking each done and queueing every
/// contract whose dependencies are then all done, in manifest order.
fn run_queue(tg: &Vec<Vec<usize>>, n: usize, out: &mut Vec<usize>, done: &mut Vec<bool>, queued: &mut Vec<bool>)
    requires
        tg@.len() == n,
        forall|x: int, k: int| 0 <= x < n && 0 <= k < tg@[x]@.len() ==> (#[trigger] tg@[x]@[k]) < n,
        order_state(tg@.map_values(|v: Vec<usize>| v@), n as int, old(out)@, 0, old(done)@, old(queued)@),
        queue_exact(tg@.map_values(|v: Vec<usize>| v@), n as int, old(done)@, old(queued)@),
    ensures
        order_state(
            tg@.map_values(|v: Vec<usize>| v@),
            n as int,
            final(out)@,
            final(out)@.len() as int,
            final(done)@,
            final(queued)@,
        ),
        queue_exact(tg@.map_values(|v: Vec<usize>| v@), n as int, final(done)@, final(queued)@),
{
    let ghost tv = tg@.map_values(|v: Vec<usize>| v@);
    proof {
        assert forall|x: int| 0 <= x < n implies (#[trigger] tv[x]) == tg@[x]@ by {}
    }
    let mut h: usize = 0;
    while h < out.len()
        invariant
            tg@.len() == n,
            tv == tg@.map_values(|v: Vec<usize>| v@),
            forall|x: int| 0 <= x < n ==> (#[trigger] tv[x]) == tg@[x]@,
            forall|x: int, k: int| 0 <= x < n && 0 <= k < tg@[x]@.len() ==> (#[trigger] tg@[x]@[k]) < n,
            order_state(tv, n as int, out@, h as int, done@, queued@),
            queue_exact(tv, n as int, done@, queued@),
        decreases n - h,
    {
        proof {
            lemma_count_true_bound(queued@);
        }
        let u = out[h];
        let ghost d0 = done@;
        proof {
            assert(!done@[u as int]) by {
                if done@[u as int] {
                    let p = choose|p: int| 0 <= p < h && out@[p] == u;
                    assert(out@[p] != out@[h as int]);
                }
            }
        }
        done.set(u, true);
        proof {
            assert forall|y: int| 0 <= y < n implies (#[trigger] done@[y] <==> exists|p: int|
                0 <= p < h + 1 && out@[p] == y) by {
                if y != u {
                    assert(done@[y] == d0[y]);
                    if exists|p: int| 0 <= p < h + 1 && out@[p] == y {
                        let p = choose|p: int| 0 <= p < h + 1 && out@[p] == y;
                        assert(p != h);
                    }
                }
            }
            assert forall|y: int| 0 <= y < n && #[trigger] queued@[y] implies pend(tv[y], done@) == 0 by {
                lemma_pend_mono(tv[y], d0, done@);
            }
        }
        let mut x: usize = 0;
        while x < n
            invariant
                tg@.len() == n,
                tv == tg@.map_values(|v: Vec<usize>| v@),
                forall|x: int| 0 <= x < n ==> (#[trigger] tv[x]) == tg@[x]@,
                forall|x: int, k: int| 0 <= x < n && 0 <= k < tg@[x]@.len() ==> (#[trigger] tg@[x]@[k]) < n,
                h < out@.len(),
                order_state(tv, n as int, out@, h + 1, done@, queued@),
                forall|y: int| 0 <= y < x ==> (#[trigger] queued@[y] <==> pend(tv[y], done@) == 0),
                forall|y: int| x <= y < n && #[trigger] queued@[y] ==> pend(tv[y], done@) == 0,
                x <= n,
            decreases n - x,
        {
            if !queued[x] && all_done(&tg[x], done) {
                let ghost q0 = queued@;
                let ghost o0 = out@;
                proof {
                    lemma_count_true_set(queued@, x as int);
                    lemma_count_true_bound(queued@.update(x as int, true));
                    assert forall|p: int| 0 <= p < out@.len() implies out@[p] != x by {
                        assert(queued@[out@[p] as int]);
                    }
                    lemma_pend_zero(tv[x as int], done@);
                }
                queued.set(x, true);
                out.push(x);
                proof {
                    assert forall|y: int| 0 <= y < n && #[trigger] queued@[y] implies exists|p: int|
                        0 <= p < out@.len() && out@[p] == y by {
                        if y == x {
                            assert(out@[o0.len() as int] == y);
                        } else {
                            assert(q0[y]);
                            let p = choose|p: int| 0 <= p < o0.len() && o0[p] == y;
                            assert(out@[p] == y);
                        }
                    }
                    assert forall|p: int, k: int|
                        0 <= p < out@.len() && 0 <= k < tv[out@[p] as int].len() implies exists|q: int|
                        0 <= q < p && out@[q] == #[trigger] tv[out@[p] as int][k] by {
                        if p < o0.len() {
                            assert(out@[p] == o0[p]);
                            let t = tv[o0[p] as int][k];
                            assert(exists|q: int| 0 <= q < p && o0[q] == t);
                            let q = choose|q: int| 0 <= q < p && o0[q] == t;
                            assert(out@[q] == t);
                        } else {
                            assert(out@[p] == x);
                            let t = tv[x as int][k];
                            assert(done@[t as int]);
                            assert(t < n);
                            assert(exists|q: int| 0 <= q < h + 1 && o0[q] == t);
                            let q = choose|q: int| 0 <= q < h + 1 && o0[q] == t;
                            assert(out@[q] == t);
                        }
                    }
                    assert forall|y: int| 0 <= y < n implies (#[trigger] done@[y] <==> exists|p: int|
                        0 <= p < h + 1 && out@[p] == y) by {
                        if exists|p: int| 0 <= p < h + 1 && o0[p] == y {
                            let p = choose|p: int| 0 <= p < h + 1 && o0[p] == y;
                            assert(out@[p] == y);
                        }
                        if exists|p: int| 0 <= p < h + 1 && out@[p] == y {
                            let p = choose|p: int| 0 <= p < h + 1 && out@[p] == y;
                            assert(o0[p] == y);
                        }
                    }
                }
            }
            x += 1;
        }
        h += 1;
    }
}


/// The ids of the contracts at the indices `out`.
pub open spec fn names_at(cs: Seq<ManifestContract>, out: Seq<usize>) -> Seq<Seq<char>> {
    out.map_values(|i: usize| cs[i as int].id@)
}

/// A queue that took every contract is a deploy order.
proof fn lemma_complete_order(
    cs: Seq<ManifestContract>,
    tv: Seq<Seq<usize>>,
    out: Seq<usize>,
    done: Seq<bool>,
    queued: Seq<bool>,
)
    requires
        targets_of(cs, tv),
        distinct(contract_ids(cs)),
        order_state(tv, cs.len() as int, out, out.len() as int, done, queued),
        out.len() == cs.len(),
    ensures
        is_deploy_order(cs, names_at(cs, out)),
{
    let n = cs.len() as int;
    let o = names_at(cs, out);
    let ids = contract_ids(cs);
    lemma_count_true_bound(queued);
    assert forall|p: int, q: int| 0 <= p < q < o.len() implies #[trigger] o[p] != #[trigger] o[q] by {
        assert(out[p] != out[q]);
        assert(ids[out[p] as int] == o[p] && ids[out[q] as int] == o[q]);
    }
    assert forall|i: int| 0 <= i < n implies o.contains(#[trigger] cs[i].id@) by {
        assert(queued[i]);
        let p = choose|p: int| 0 <= p < out.len() && out[p] == i;
        assert(o[p] == cs[i].id@);
    }
    assert forall|p: int| 0 <= p < o.len() implies ids.contains(#[trigger] o[p]) by {
        assert(ids[out[p] as int] == o[p]);
    }
    assert forall|i: int, k: int| 0 <= i < n && 0 <= k < deps_of(cs[i]).len() implies precedes(
        o,
        #[trigger] deps_of(cs[i])[k],
        cs[i].id@,
    ) by {
        assert(queued[i]);
        let p = choose|p: int| 0 <= p < out.len() && out[p] == i;
        assert(tv[out[p] as int][k] == tv[i][k]);
        let t = tv[i][k];
        assert(exists|q: int| 0 <= q < p && out[q] == tv[out[p] as int][k]);
        let q = choose|q: int| 0 <= q < p && out[q] == tv[out[p] as int][k];
        assert(o[q] == cs[t as int].id@);
        assert(o[p] == cs[i].id@);
    }
}

/// The least index at which `pred` holds, given one.
proof fn lemma_least(pred: spec_fn(int) -> bool, p: int) -> (m: int)
    requires
        0 <= p,
        pred(p),
    ensures
        0 <= m <= p,
        pred(m),
        forall|q: int| 0 <= q < m ==> !#[trigger] pred(q),
    decreases p,
{
    if exists|q: int| 0 <= q < p && #[trigger] pred(q) {
        let q = choose|q: int| 0 <= q < p && #[trigger] pred(q);
        lemma_least(pred, q)
    } else {
        p
    }
}

/// Index of the contract with id `d` (ids distinct).
proof fn lemma_unique_id(cs: Seq<ManifestContract>, a: int, b: int)
    requires
        distinct(contract_ids(cs)),
        0 <= a < cs.len(),
        0 <= b < cs.len(),
        cs[a].id@ == cs[b].id@,
    ensures
        a == b,
{
    let ids = contract_ids(cs);
    assert(ids[a] == cs[a].id@ && ids[b] == cs[b].id@);
    if a < b {
        assert(ids[a] != ids[b]);
    } else if b < a {
        assert(ids[b] != ids[a]);
    }
}

/// A queue that ran dry before taking every contract leaves a contract
/// that waits on itself through its dependencies: no deploy order exists.
proof fn lemma_no_order(
    cs: Seq<ManifestContract>,
    tv: Seq<Seq<usize>>,
    out: Seq<usize>,
    done: Seq<bool>,
    queued: Seq<bool>,
    o: Seq<Seq<char>>,
)
    requires
        targets_of(cs, tv),
        distinct(contract_ids(cs)),
        order_state(tv, cs.len() as int, out, out.len() as int, done, queued),
        queue_exact(tv, cs.len() as int, done, queued),
        out.len() < cs.len(),
    ensures
        !is_deploy_order(cs, o),
{
    let n = cs.len() as int;
    let ids = contract_ids(cs);
    if is_deploy_order(cs, o) {
        lemma_count_true_bound(queued);
        let y = choose|y: int| 0 <= y < n && !#[trigger] queued[y];
        assert(!done[y]) by {
            if done[y] {
                let p = choose|p: int| 0 <= p < out.len() && out[p] == y;
                assert(queued[out[p] as int]);
            }
        }
        // the node of each position of `o`
        let undone = |p: int| 0 <= p < o.len() && exists|z: int| 0 <= z < n && cs[z].id@ == o[p] && !done[z];
        assert(o.contains(cs[y].id@));
        let py = choose|p: int| 0 <= p < o.len() && o[p] == cs[y].id@;
        assert(undone(py));
        let p0 = lemma_least(undone, py);
        let z = choose|z: int| 0 <= z < n && cs[z].id@ == o[p0] && !done[z];
        assert(!queued[z]) by {
            if queued[z] {
                let p = choose|p: int| 0 <= p < out.len() && out[p] == z;
                assert(done[z]);
            }
        }
        assert(pend(tv[z], done) > 0);
        lemma_pend_zero(tv[z], done);
        let k = choose|k: int| 0 <= k < tv[z].len() && !done[#[trigger] tv[z][k] as int];
        let t = tv[z][k] as int;
        assert(cs[t].id@ == deps_of(cs[z])[k]);
        assert(precedes(o, deps_of(cs[z])[k], cs[z].id@));
        let (pa, qa) = choose|pa: int, qa: int|
            0 <= pa < qa < o.len() && #[trigger] o[pa] == deps_of(cs[z])[k] && #[trigger] o[qa] == cs[z].id@;
        assert(qa == p0) by {
            if qa != p0 {
                if qa < p0 {
                    assert(o[qa] != o[p0]);
                } else {
                    assert(o[p0] != o[qa]);
                }
            }
        }
        assert(undone(pa));
    }
}

/// The order in which the manifest's contracts deploy: every dependency
/// before its dependents. Contracts without dependencies start, by id;
/// each deployed contract then releases, in manifest order, the contracts
/// whose dependencies are all deployed. A dependency on an unknown
/// contract or on the contract itself is refused (the first in manifest
/// order), and so is a manifest where no such order exists (a cycle) or
/// where an id repeats.
#[verifier::rlimit(40)]
pub fn resolve_order(manifest: &DeployManifest) -> (r: Result<Vec<String>, String>)
    ensures
        match manifest_problem(manifest.contracts@, contract_ids(manifest.contracts@)) {
            Some(m) => r matches Err(e) && e@ == m,
            None => match r {
                Ok(o) => is_deploy_order(manifest.contracts@, string_views(o@)) && distinct(
                    contract_ids(manifest.contracts@),
                ),
                Err(e) => e@ == circular_message() && (!distinct(contract_ids(manifest.contracts@))
                    || forall|o: Seq<Seq<char>>| !is_deploy_order(manifest.contracts@, o)),
            },
        },
{
    let cs = &manifest.contracts;
    let n = cs.len();
    let ghost all = contract_ids(cs@);
    let mut ids: Vec<String> = Vec::new();
    let mut i: usize = 0;
    while i < n
        invariant
            n == cs@.len(),
            i <= n,
            string_views(ids@) == contract_ids(cs@).take(i as int),
        decreases n - i,
    {
        let ghost before = ids@;
        let s = to_owned_string(cs[i].id.as_str());
        ids.push(s);
        proof {
            crate::text::lemma_string_views_push(before, s);
            assert(contract_ids(cs@).take(i + 1) =~= contract_ids(cs@).take(i as int).push(cs@[i as int].id@));
        }
        i += 1;
    }
    assert(contract_ids(cs@).take(n as int) =~= contract_ids(cs@));
    match check_dependencies(cs, &ids) {
        Some(m) => return Err(m),
        None => {},
    }
    let mut unique = true;
    let mut a: usize = 0;
    while a < n
        invariant
            n == cs@.len(),
            a <= n,
            all == contract_ids(cs@),
            unique ==> forall|p: int, q: int| 0 <= p < q < n && p < a ==> #[trigger] all[p] != #[trigger] all[q],
            !unique ==> !distinct(all),
        decreases n - a,
    {
        let mut b: usize = a + 1;
        while b < n
            invariant
                n == cs@.len(),
                a < n,
                a + 1 <= b <= n,
                all == contract_ids(cs@),
                unique ==> forall|p: int, q: int| 0 <= p < q < n && p < a ==> #[trigger] all[p] != #[trigger] all[q],
                unique ==> forall|q: int| a < q < b ==> all[a as int] != #[trigger] all[q],
                !unique ==> !distinct(all),
            decreases n - b,
        {
            if str_eq(cs[a].id.as_str(), cs[b].id.as_str()) {
                assert(all[a as int] == all[b as int]);
                unique = false;
            }
            b += 1;
        }
        a += 1;
    }
    if !unique {
        return Err(to_owned_string("Circular dependency detected in deployment manifest"));
    }
    let tg = dependency_targets(cs);
    let ghost tv = tg@.map_values(|v: Vec<usize>| v@);
    proof {
        assert forall|x: int, k: int| 0 <= x < n && 0 <= k < tg@[x]@.len() implies (#[trigger] tg@[x]@[k]) < n by {
            assert(tv[x] == tg@[x]@);
        }
    }
    let mut done = all_false(n);
    let (mut out, mut queued) = initial_queue(cs, &tg, &done);
    run_queue(&tg, n, &mut out, &mut done, &mut queued);
    if out.len() == n {
        let mut names: Vec<String> = Vec::new();
        let mut p: usize = 0;
        while p < n
            invariant
                n == cs@.len(),
                out@.len() == n,
                forall|q: int| 0 <= q < n ==> (#[trigger] out@[q]) < n,
                p <= n,
                string_views(names@) == names_at(cs@, out@).take(p as int),
            decreases n - p,
        {
            let ghost before = names@;
            let s = to_owned_string(cs[out[p]].id.as_str());
            names.push(s);
            proof {
                crate::text::lemma_string_views_push(before, s);
                assert(names_at(cs@, out@).take(p + 1) =~= names_at(cs@, out@).take(p as int).push(
                    cs@[out@[p as int] as int].id@,
                ));
            }
            p += 1;
        }
        proof {
            assert(names_at(cs@, out@).take(n as int) =~= names_at(cs@, out@));
            lemma_complete_order(cs@, tv, out@, done@, queued@);
            assert(distinct(all));
        }
        Ok(names)
    } else {
        proof {
            lemma_count_true_bound(queued@);
            assert forall|o: Seq<Seq<char>>| !is_deploy_order(cs@, o) by {
                lemma_no_order(cs@, tv, out@, done@, queued@, o);
            }
        }
        Err(to_owned_string("Circular dependency detected in deployment manifest"))
    }
}


/// The contract with id `id`.
pub open spec fn contract_for(cs: Seq<ManifestContract>, id: Seq<char>) -> ManifestContract {
    cs[choose|i: int| 0 <= i < cs.len() && cs[i].id@ == id]
}

/// A contract's dependencies as listed in the graph: `none`, or the ids
/// joined by commas.
pub open spec fn deps_text(c: ManifestContract) -> Seq<char> {
    if c.depends_on@.len() == 0 {
        "none"@
    } else {
        join_spec(deps_of(c), ", "@)
    }
}

/// The numbered lines of the execution order.
pub open spec fn order_lines(cs: Seq<ManifestContract>, o: Seq<Seq<char>>) -> Seq<Seq<char>>
    decreases o.len(),
{
    if o.len() == 0 {
        Seq::empty()
    } else {
        order_lines(cs, o.drop_last()).push(
            "  "@ + decimal(o.len()) + ". "@ + o.last() + " ← depends on ["@ + deps_text(contract_for(cs, o.last()))
                + "]"@,
        )
    }
}

/// The edges of the diagram for one contract.
pub open spec fn edge_lines(c: ManifestContract) -> Seq<Seq<char>> {
    deps_of(c).map_values(|d: Seq<char>| "    "@ + d + " --> "@ + c.id@) + if c.depends_on@.len() == 0 {
        seq!["    START --> "@ + c.id@]
    } else {
        Seq::empty()
    }
}

/// The edges of the diagram, contract by contract.
pub open spec fn diagram_lines(cs: Seq<ManifestContract>) -> Seq<Seq<char>>
    decreases cs.len(),
{
    if cs.len() == 0 {
        Seq::empty()
    } else {
        diagram_lines(cs.drop_last()) + edge_lines(cs.last())
    }
}

/// The dependency graph text for the execution order `o`.
pub open spec fn dag_text(m: DeployManifest, o: Seq<Seq<char>>) -> Seq<char> {
    join_spec(
        seq!["Deployment: "@ + m.name@, "Network: "@ + m.network@, ""@, "Dependency Graph (execution order):"@]
            + order_lines(m.contracts@, o) + seq![""@, "Mermaid diagram:"@, "```mermaid"@, "graph TD"@]
            + diagram_lines(m.contracts@) + seq!["```"@],
        "\n"@,
    )
}

fn push_line(lines: &mut Vec<String>, s: String)
    ensures
        string_views(final(lines)@) == string_views(old(lines)@).push(s@),
{
    let ghost before = lines@;
    lines.push(s);
    proof {
        crate::text::lemma_string_views_push(before, s);
    }
}

/// Renders the deployment's dependency graph: the execution order, each
/// contract with its dependencies, then a Mermaid diagram with an edge per
/// dependency (and from `START` for contracts without one). Fails as
/// `resolve_order` does.
pub fn render_dag(manifest: &DeployManifest) -> (r: Result<String, String>)
    ensures
        match manifest_problem(manifest.contracts@, contract_ids(manifest.contracts@)) {
            Some(m) => r matches Err(e) && e@ == m,
            None => match r {
                Ok(t) => exists|o: Seq<Seq<char>>|
                    is_deploy_order(manifest.contracts@, o) && t@ == #[trigger] dag_text(*manifest, o),
                Err(e) => e@ == circular_message() && (!distinct(contract_ids(manifest.contracts@))
                    || forall|o: Seq<Seq<char>>| !is_deploy_order(manifest.contracts@, o)),
            },
        },
{
    let order = match resolve_order(manifest) {
        Ok(o) => o,
        Err(e) => return Err(e),
    };
    let cs = &manifest.contracts;
    let ghost ov = string_views(order@);
    let mut lines: Vec<String> = Vec::new();
    assert(string_views(lines@) =~= Seq::<Seq<char>>::empty());
    let mut l1 = to_owned_string("Deployment: ");
    push_str(&mut l1, manifest.name.as_str());
    push_line(&mut lines, l1);
    let mut l2 = to_owned_string("Network: ");
    push_str(&mut l2, manifest.network.as_str());
    push_line(&mut lines, l2);
    push_line(&mut lines, to_owned_string(""));
    push_line(&mut lines, to_owned_string("Dependency Graph (execution order):"));
    let ghost head = string_views(lines@);
    assert(head =~= seq![
        "Deployment: "@ + manifest.name@,
        "Network: "@ + manifest.network@,
        ""@,
        "Dependency Graph (execution order):"@,
    ]);
    let mut idx: usize = 0;
    while idx < order.len()
        invariant
            is_deploy_order(cs@, ov),
            distinct(contract_ids(cs@)),
            ov == string_views(order@),
            idx <= order@.len(),
            string_views(lines@) == head + order_lines(cs@, ov.take(idx as int)),
        decreases order@.len() - idx,
    {
        let id = order[idx].as_str();
        assert(ov[idx as int] == id@);
        assert(contract_ids(cs@).contains(id@));
        let j = find_contract(cs, id);
        proof {
            assert(cs@[j as int].id@ == id@);
            let c = choose|i: int| 0 <= i < cs@.len() && cs@[i].id@ == id@;
            assert(cs@[c].id@ == id@);
            lemma_unique_id(cs@, c, j as int);
            assert(contract_for(cs@, id@) == cs@[j as int]);
        }
        let c = &cs[j];
        let deps = if c.depends_on.len() == 0 {
            to_owned_string("none")
        } else {
            join(&c.depends_on, ", ")
        };
        let mut line = to_owned_string("  ");
        push_str(&mut line, decimal_string((idx + 1) as u64).as_str());
        push_str(&mut line, ". ");
        push_str(&mut line, id);
        push_str(&mut line, " ← depends on [");
        push_str(&mut line, deps.as_str());
        push_str(&mut line, "]");
        push_line(&mut lines, line);
        proof {
            assert(ov.take(idx + 1).drop_last() =~= ov.take(idx as int));
            assert(ov.take(idx + 1).last() == id@);
        }
        idx += 1;
    }
    assert(ov.take(idx as int) =~= ov);
    push_line(&mut lines, to_owned_string(""));
    push_line(&mut lines, to_owned_string("Mermaid diagram:"));
    push_line(&mut lines, to_owned_string("```mermaid"));
    push_line(&mut lines, to_owned_string("graph TD"));
    let ghost mid = string_views(lines@);
    assert(mid =~= head + order_lines(cs@, ov) + seq![""@, "Mermaid diagram:"@, "```mermaid"@, "graph TD"@]);
    let mut i: usize = 0;
    while i < cs.len()
        invariant
            i <= cs@.len(),
            string_views(lines@) == mid + diagram_lines(cs@.take(i as int)),
        decreases cs@.len() - i,
    {
        let c = &cs[i];
        let ghost before = string_views(lines@);
        let ghost dv = deps_of(cs@[i as int]);
        let mut k: usize = 0;
        while k < c.depends_on.len()
            invariant
                i < cs@.len(),
                c == cs@[i as int],
                dv == deps_of(cs@[i as int]),
                k <= dv.len(),
                string_views(lines@) == before + dv.take(k as int).map_values(
                    |d: Seq<char>| "    "@ + d + " --> "@ + c.id@,
                ),
            decreases dv.len() - k,
        {
            let mut line = to_owned_string("    ");
            push_str(&mut line, c.depends_on[k].as_str());
            push_str(&mut line, " --> ");
            push_str(&mut line, c.id.as_str());
            push_line(&mut lines, line);
            proof {
                assert(dv[k as int] == c.depends_on@[k as int]@);
                assert(dv.take(k + 1).map_values(|d: Seq<char>| "    "@ + d + " --> "@ + c.id@) =~= dv.take(
                    k as int,
                ).map_values(|d: Seq<char>| "    "@ + d + " --> "@ + c.id@).push(
                    "    "@ + dv[k as int] + " --> "@ + c.id@,
                ));
            }
            k += 1;
        }
        assert(dv.take(k as int) =~= dv);
        if c.depends_on.len() == 0 {
            let mut line = to_owned_string("    START --> ");
            push_str(&mut line, c.id.as_str());
            push_line(&mut lines, line);
        }
        proof {
            assert(cs@.take(i + 1).drop_last() =~= cs@.take(i as int));
            assert(cs@.take(i + 1).last() == cs@[i as int]);
            assert(string_views(lines@) =~= mid + diagram_lines(cs@.take(i + 1)));
        }
        i += 1;
    }
    assert(cs@.take(i as int) =~= cs@);
    push_line(&mut lines, to_owned_string("```"));
    let t = join(&lines, "\n");
    assert(string_views(lines@) =~= seq![
        "Deployment: "@ + manifest.name@,
        "Network: "@ + manifest.network@,
        ""@,
        "Dependency Graph (execution order):"@,
    ] + order_lines(cs@, ov) + seq![""@, "Mermaid diagram:"@, "```mermaid"@, "graph TD"@] + diagram_lines(cs@)
        + seq!["```"@]);
    assert(t@ == dag_text(*manifest, ov));
    Ok(t)
}

} // verus!
