//! Reachability over the direct-call graph of a decoded module.

use vstd::prelude::*;
use std::collections::BTreeMap;
use vstd::std_specs::iter::IteratorSpec;
use crate::gas_profiler::wasm::{cap_u32, func_imports, FunctionBody, WasmModule};

verus! {

broadcast use {vstd::std_specs::btree::group_btree_axioms, vstd::laws_cmp::group_laws_cmp};

/// `s` is strictly increasing.
pub open spec fn increasing(s: Seq<u32>) -> bool {
    forall|i: int, j: int| 0 <= i < j < s.len() ==> s[i] < s[j]
}

/// The keys of a map keyed by function index, in increasing order.
pub fn keys_of<V>(map: &BTreeMap<u32, V>) -> (r: Vec<u32>)
    ensures
        forall|k: u32| map@.contains_key(k) <==> r@.contains(k),
        increasing(r@),
{
    let mut out: Vec<u32> = Vec::new();
    for kv in it: map.iter()
        invariant
            it.seq() == vstd::std_specs::btree::spec_btree_map_iter(map).remaining(),
            out@.len() == it.index(),
            forall|j: int| 0 <= j < it.index() ==> out@[j] == *it.seq()[j].0,
            forall|i: int| 0 <= i < out@.len() ==> map@.contains_key(out@[i]),
    {
        let (k, _) = kv;
        out.push(*k);
    }
    let ghost rem = vstd::std_specs::btree::spec_btree_map_iter(map).remaining();
    assert forall|k: u32| map@.contains_key(k) implies out@.contains(k) by {
        assert(rem.contains((&k, &map@[k])));
        let j = choose|j: int| 0 <= j < rem.len() && rem[j] == (&k, &map@[k]);
        assert(out@[j] == k);
    }
    assert(out@ =~= rem.map_values(|kv: (&u32, &V)| *kv.0));
    assert(vstd::std_specs::btree::increasing_seq(out@));
    assert forall|i: int, j: int| 0 <= i < j < out@.len() implies out@[i] < out@[j] by {
        assert(vstd::laws_cmp::obeys_cmp::<u32>());
        vstd::std_specs::btree::axiom_increasing_seq_meaning(out@);
        assert(vstd::std_specs::cmp::OrdSpec::cmp_spec(&out@[i], &out@[j]) is Less);
    }
    out
}

/// The keys of a call-count map.
pub fn callee_list(calls: &BTreeMap<u32, u32>) -> (r: Vec<u32>)
    ensures
        forall|k: u32| calls@.contains_key(k) ==> r@.contains(k),
        forall|i: int| 0 <= i < r@.len() ==> calls@.contains_key(r@[i]),
{
    let r = keys_of(calls);
    assert forall|i: int| 0 <= i < r@.len() implies calls@.contains_key(r@[i]) by {
        assert(r@.contains(r@[i]));
    }
    r
}

/// Number of imported functions (the low function indices).
pub open spec fn imported_of(m: WasmModule) -> u32 {
    cap_u32(func_imports(m.imports@).len())
}

/// The body of the defined function with absolute index `idx`.
pub open spec fn body_at(m: WasmModule, idx: u32) -> Option<FunctionBody> {
    let imp = imported_of(m);
    if idx >= imp && idx - imp < m.functions@.len() {
        Some(m.functions@[idx - imp])
    } else {
        None
    }
}

/// The function `a` calls `b` directly.
pub open spec fn calls(m: WasmModule, a: u32, b: u32) -> bool {
    match body_at(m, a) {
        Some(f) => f.direct_calls@.contains_key(b),
        None => false,
    }
}

/// The function `a` calls `b` from inside a loop.
pub open spec fn loop_calls(m: WasmModule, a: u32, b: u32) -> bool {
    match body_at(m, a) {
        Some(f) => f.direct_calls_in_loops@.contains_key(b),
        None => false,
    }
}

/// Each function of `p` calls the next.
pub open spec fn call_path(m: WasmModule, p: Seq<u32>) -> bool
    decreases p.len(),
{
    p.len() <= 1 || (call_path(m, p.drop_last()) && calls(m, p[p.len() - 2], p.last()))
}

/// Some call along `p` is made from inside a loop.
pub open spec fn path_in_loop(m: WasmModule, p: Seq<u32>) -> bool
    decreases p.len(),
{
    p.len() > 1 && (path_in_loop(m, p.drop_last()) || loop_calls(m, p[p.len() - 2], p.last()))
}

/// `p` is a call path from `root` to `x`.
pub open spec fn path_to(m: WasmModule, root: u32, x: u32, p: Seq<u32>) -> bool {
    p.len() >= 1 && p[0] == root && p.last() == x && call_path(m, p)
}

/// `x` can be reached from `root` through direct calls (`root` included).
pub open spec fn reachable(m: WasmModule, root: u32, x: u32) -> bool {
    exists|p: Seq<u32>| #[trigger] path_to(m, root, x, p)
}

/// `x` can run inside a loop when `root` is called: some call path from
/// `root` to it makes a call from inside a loop.
pub open spec fn runs_in_loop(m: WasmModule, root: u32, x: u32) -> bool {
    exists|p: Seq<u32>| #[trigger] path_to(m, root, x, p) && path_in_loop(m, p)
}

proof fn lemma_path_push(m: WasmModule, root: u32, x: u32, p: Seq<u32>, y: u32)
    requires
        path_to(m, root, x, p),
        calls(m, x, y),
    ensures
        path_to(m, root, y, p.push(y)),
        path_in_loop(m, p.push(y)) == (path_in_loop(m, p) || loop_calls(m, x, y)),
{
    assert(p.push(y).drop_last() =~= p);
}

/// Every function reachable from `root`, with its call-count map keyed
/// by function index (each value is `true`).
pub fn reachable_functions(m: &WasmModule, root: u32) -> (r: BTreeMap<u32, bool>)
    ensures
        forall|x: u32| r@.contains_key(x) <==> reachable(*m, root, x),
{
    let mut seen: BTreeMap<u32, bool> = BTreeMap::new();
    let mut stack: Vec<u32> = Vec::new();
    stack.push(root);
    proof {
        assert(path_to(*m, root, root, seq![root]));
    }
    while stack.len() > 0
        invariant
            forall|x: u32| seen@.contains_key(x) ==> reachable(*m, root, x),
            forall|i: int| 0 <= i < stack@.len() ==> reachable(*m, root, #[trigger] stack@[i]),
            seen@.contains_key(root) || stack@.contains(root),
            forall|x: u32, y: u32|
                seen@.contains_key(x) && #[trigger] calls(*m, x, y) ==> seen@.contains_key(y)
                    || stack@.contains(y),
            seen@.dom().finite(),
            seen@.dom().len() <= usize::MAX,
        decreases usize::MAX - seen@.dom().len(), stack@.len(),
    {
        let ghost before_pop = stack@;
        let idx = stack.pop().unwrap();
        assert(before_pop =~= stack@.push(idx));
        assert(reachable(*m, root, idx)) by {
            assert(before_pop[before_pop.len() - 1] == idx);
        }
        assert forall|y: u32| before_pop.contains(y) implies stack@.contains(y) || y == idx by {
            let t = choose|t: int| 0 <= t < before_pop.len() && before_pop[t] == y;
            if t < stack@.len() {
                assert(stack@[t] == y);
            }
        }
        assert forall|i: int| 0 <= i < stack@.len() implies reachable(*m, root, #[trigger] stack@[i]) by {
            assert(stack@[i] == before_pop[i]);
        }
        if seen.contains_key(&idx) {
            continue;
        }
        seen.insert(idx, true);
        let n = seen.len();
        match m.body_for_function(idx) {
            Some(body) => {
                let callees = callee_list(&body.direct_calls);
                let mut k: usize = 0;
                while k < callees.len()
                    invariant
                        k <= callees@.len(),
                        seen@.contains_key(idx),
                        body_at(*m, idx) == Some(*body),
                        reachable(*m, root, idx),
                        forall|i: int| 0 <= i < callees@.len() ==> body.direct_calls@.contains_key(
                            #[trigger] callees@[i],
                        ),
                        forall|c: u32| body.direct_calls@.contains_key(c) ==> callees@.contains(c),
                        forall|x: u32| seen@.contains_key(x) ==> reachable(*m, root, x),
                        forall|i: int|
                            0 <= i < stack@.len() ==> reachable(*m, root, #[trigger] stack@[i]),
                        seen@.contains_key(root) || stack@.contains(root),
                        forall|x: u32, y: u32|
                            seen@.contains_key(x) && x != idx && #[trigger] calls(*m, x, y)
                                ==> seen@.contains_key(y) || stack@.contains(y),
                        forall|j: int| 0 <= j < k ==> stack@.contains(#[trigger] callees@[j]),
                    decreases callees@.len() - k,
                {
                    let c = callees[k];
                    proof {
                        let p = choose|p: Seq<u32>| #[trigger] path_to(*m, root, idx, p);
                        lemma_path_push(*m, root, idx, p, c);
                    }
                    let ghost before = stack@;
                    stack.push(c);
                    assert forall|j: int| 0 <= j < k + 1 implies stack@.contains(
                        #[trigger] callees@[j],
                    ) by {
                        if j < k {
                            let t = choose|t: int| 0 <= t < before.len() && before[t] == callees@[j];
                            assert(stack@[t] == callees@[j]);
                        } else {
                            assert(stack@[before.len() as int] == c);
                        }
                    }
                    assert forall|x: u32, y: u32|
                        seen@.contains_key(x) && x != idx && #[trigger] calls(*m, x, y)
                            implies seen@.contains_key(y) || stack@.contains(y) by {
                        if !seen@.contains_key(y) {
                            let t = choose|t: int| 0 <= t < before.len() && before[t] == y;
                            assert(stack@[t] == y);
                        }
                    }
                    assert(seen@.contains_key(root) || stack@.contains(root)) by {
                        if !seen@.contains_key(root) {
                            let t = choose|t: int| 0 <= t < before.len() && before[t] == root;
                            assert(stack@[t] == root);
                        }
                    }
                    k += 1;
                }
                assert forall|x: u32, y: u32|
                    seen@.contains_key(x) && #[trigger] calls(*m, x, y) implies seen@.contains_key(
                        y,
                    ) || stack@.contains(y) by {
                    if x == idx {
                        assert(body.direct_calls@.contains_key(y));
                        assert(callees@.contains(y));
                        let t = choose|t: int| 0 <= t < callees@.len() && callees@[t] == y;
                        assert(stack@.contains(callees@[t]));
                    }
                }
            },
            None => {},
        }
    }
    assert forall|x: u32| reachable(*m, root, x) implies seen@.contains_key(x) by {
        let p = choose|p: Seq<u32>| #[trigger] path_to(*m, root, x, p);
        lemma_closed_contains(*m, root, p, seen@);
    }
    seen
}

proof fn lemma_closed_contains(m: WasmModule, root: u32, p: Seq<u32>, seen: Map<u32, bool>)
    requires
        p.len() >= 1,
        p[0] == root,
        call_path(m, p),
        seen.contains_key(root),
        forall|x: u32, y: u32| seen.contains_key(x) && #[trigger] calls(m, x, y) ==> seen.contains_key(y),
    ensures
        seen.contains_key(p.last()),
    decreases p.len(),
{
    if p.len() > 1 {
        lemma_closed_contains(m, root, p.drop_last(), seen);
        assert(calls(m, p[p.len() - 2], p.last()));
    }
}


/// `b` is called from inside a loop by a function reachable from `root`.
pub open spec fn loop_callee(m: WasmModule, root: u32, b: u32) -> bool {
    exists|a: u32| #[trigger] reachable(m, root, a) && calls(m, a, b) && loop_calls(m, a, b)
}

proof fn lemma_join_paths(
    m: WasmModule,
    root: u32,
    a: u32,
    q1: Seq<u32>,
    b: u32,
    x: u32,
    q2: Seq<u32>,
)
    requires
        path_to(m, root, a, q1),
        calls(m, a, b),
        loop_calls(m, a, b),
        path_to(m, b, x, q2),
    ensures
        path_to(m, root, x, q1 + q2),
        path_in_loop(m, q1 + q2),
    decreases q2.len(),
{
    if q2.len() == 1 {
        assert(q1 + q2 =~= q1.push(b));
        lemma_path_push(m, root, a, q1, b);
    } else {
        let q = q2.drop_last();
        let y = q.last();
        assert(path_to(m, b, y, q));
        lemma_join_paths(m, root, a, q1, b, y, q);
        assert(calls(m, y, x));
        lemma_path_push(m, root, y, q1 + q, x);
        assert((q1 + q).push(x) =~= q1 + q2);
    }
}

proof fn lemma_split_path(m: WasmModule, root: u32, x: u32, p: Seq<u32>)
    requires
        path_to(m, root, x, p),
        path_in_loop(m, p),
    ensures
        exists|b: u32| loop_callee(m, root, b) && #[trigger] reachable(m, b, x),
    decreases p.len(),
{
    let q = p.drop_last();
    let y = p[p.len() - 2];
    assert(q.last() == y);
    assert(path_to(m, root, y, q));
    if path_in_loop(m, q) {
        lemma_split_path(m, root, y, q);
        let b = choose|b: u32| loop_callee(m, root, b) && #[trigger] reachable(m, b, y);
        let r = choose|r: Seq<u32>| #[trigger] path_to(m, b, y, r);
        lemma_path_push(m, b, y, r, x);
        assert(reachable(m, b, x));
    } else {
        assert(loop_calls(m, y, x));
        assert(reachable(m, root, y));
        assert(loop_callee(m, root, x));
        assert(path_to(m, x, x, seq![x]));
        assert(reachable(m, x, x));
    }
}

proof fn lemma_runs_in_loop_iff(m: WasmModule, root: u32, x: u32)
    ensures
        runs_in_loop(m, root, x) <==> exists|b: u32| loop_callee(m, root, b) && #[trigger] reachable(
            m,
            b,
            x,
        ),
{
    if runs_in_loop(m, root, x) {
        let p = choose|p: Seq<u32>| #[trigger] path_to(m, root, x, p) && path_in_loop(m, p);
        lemma_split_path(m, root, x, p);
    }
    if exists|b: u32| loop_callee(m, root, b) && #[trigger] reachable(m, b, x) {
        let b = choose|b: u32| loop_callee(m, root, b) && #[trigger] reachable(m, b, x);
        let a = choose|a: u32| #[trigger] reachable(m, root, a) && calls(m, a, b) && loop_calls(m, a, b);
        let q1 = choose|q: Seq<u32>| #[trigger] path_to(m, root, a, q);
        let q2 = choose|q: Seq<u32>| #[trigger] path_to(m, b, x, q);
        lemma_join_paths(m, root, a, q1, b, x, q2);
    }
}

/// The functions called from inside a loop by a reachable function.
fn loop_callees(m: &WasmModule, root: u32, reach: &BTreeMap<u32, bool>) -> (r: BTreeMap<u32, bool>)
    requires
        forall|x: u32| reach@.contains_key(x) <==> reachable(*m, root, x),
    ensures
        forall|b: u32| r@.contains_key(b) <==> loop_callee(*m, root, b),
{
    let nodes = keys_of(reach);
    let mut out: BTreeMap<u32, bool> = BTreeMap::new();
    let mut i: usize = 0;
    while i < nodes.len()
        invariant
            forall|x: u32| reach@.contains_key(x) <==> reachable(*m, root, x),
            forall|x: u32| reach@.contains_key(x) <==> nodes@.contains(x),
            i <= nodes@.len(),
            forall|b: u32| out@.contains_key(b) ==> loop_callee(*m, root, b),
            forall|j: int, b: u32|
                #![trigger calls(*m, nodes@[j], b)]
                0 <= j < i && calls(*m, nodes@[j], b) && loop_calls(*m, nodes@[j], b)
                    ==> out@.contains_key(b),
        decreases nodes@.len() - i,
    {
        let a = nodes[i];
        assert(nodes@.contains(a));
        assert(reachable(*m, root, a));
        match m.body_for_function(a) {
            Some(body) => {
                let ls = keys_of(&body.direct_calls_in_loops);
                let mut k: usize = 0;
                while k < ls.len()
                    invariant
                        body_at(*m, a) == Some(*body),
                        reachable(*m, root, a),
                        forall|b: u32| body.direct_calls_in_loops@.contains_key(b) <==> ls@.contains(b),
                        k <= ls@.len(),
                        forall|b: u32| out@.contains_key(b) ==> loop_callee(*m, root, b),
                        forall|j: int, b: u32|
                            #![trigger calls(*m, nodes@[j], b)]
                            0 <= j < i && calls(*m, nodes@[j], b) && loop_calls(*m, nodes@[j], b)
                                ==> out@.contains_key(b),
                        forall|t: int|
                            0 <= t < k && body.direct_calls@.contains_key(ls@[t])
                                ==> out@.contains_key(#[trigger] ls@[t]),
                    decreases ls@.len() - k,
                {
                    let b = ls[k];
                    assert(ls@.contains(b));
                    if body.direct_calls.contains_key(&b) {
                        assert(calls(*m, a, b) && loop_calls(*m, a, b));
                        assert(loop_callee(*m, root, b));
                        out.insert(b, true);
                    }
                    k += 1;
                }
                assert forall|j: int, b: u32|
                    #![trigger calls(*m, nodes@[j], b)]
                    0 <= j < i + 1 && calls(*m, nodes@[j], b) && loop_calls(*m, nodes@[j], b)
                        implies out@.contains_key(b) by {
                    if j == i {
                        assert(ls@.contains(b));
                        let t = choose|t: int| 0 <= t < ls@.len() && ls@[t] == b;
                        assert(out@.contains_key(ls@[t]));
                    }
                }
            },
            None => {},
        }
        i += 1;
    }
    assert forall|b: u32| loop_callee(*m, root, b) implies out@.contains_key(b) by {
        let a = choose|a: u32| #[trigger] reachable(*m, root, a) && calls(*m, a, b) && loop_calls(*m, a, b);
        assert(nodes@.contains(a));
        let j = choose|j: int| 0 <= j < nodes@.len() && nodes@[j] == a;
        assert(calls(*m, nodes@[j], b) && loop_calls(*m, nodes@[j], b));
    }
    out
}

/// Adds the keys `ks` to `out`.
fn merge_keys(out: &mut BTreeMap<u32, bool>, ks: &Vec<u32>)
    ensures
        forall|x: u32| final(out)@.contains_key(x) <==> old(out)@.contains_key(x) || ks@.contains(x),
{
    let mut k: usize = 0;
    while k < ks.len()
        invariant
            k <= ks@.len(),
            forall|x: u32|
                out@.contains_key(x) <==> old(out)@.contains_key(x) || ks@.take(k as int).contains(x),
        decreases ks@.len() - k,
    {
        let x0 = ks[k];
        let ghost before = out@;
        out.insert(x0, true);
        assert(out@ == before.insert(x0, true));
        assert(ks@.take(k + 1) =~= ks@.take(k as int).push(x0));
        assert forall|x: u32|
            out@.contains_key(x) <==> old(out)@.contains_key(x) || ks@.take(k + 1).contains(x) by {
            let s1 = ks@.take(k + 1);
            let s0 = ks@.take(k as int);
            if s1.contains(x) && x != x0 {
                let t = choose|t: int| 0 <= t < s1.len() && #[trigger] s1[t] == x;
                assert(s0[t] == x);
            }
            if s0.contains(x) {
                let t = choose|t: int| 0 <= t < s0.len() && #[trigger] s0[t] == x;
                assert(s1[t] == x);
            }
            if x == x0 {
                assert(ks@.take(k + 1)[k as int] == x);
            }
        }
        k += 1;
    }
    assert(ks@.take(k as int) =~= ks@);
}

/// The functions that can run inside a loop when `root` is called.
pub fn loop_functions(m: &WasmModule, root: u32, reach: &BTreeMap<u32, bool>) -> (r: BTreeMap<u32, bool>)
    requires
        forall|x: u32| reach@.contains_key(x) <==> reachable(*m, root, x),
    ensures
        forall|x: u32| r@.contains_key(x) <==> runs_in_loop(*m, root, x),
{
    let roots = keys_of(&loop_callees(m, root, reach));
    let mut out: BTreeMap<u32, bool> = BTreeMap::new();
    let mut i: usize = 0;
    while i < roots.len()
        invariant
            forall|b: u32| roots@.contains(b) <==> loop_callee(*m, root, b),
            i <= roots@.len(),
            forall|x: u32|
                out@.contains_key(x) <==> exists|j: int| 0 <= j < i && #[trigger] reachable(*m, roots@[j], x),
        decreases roots@.len() - i,
    {
        let b = roots[i];
        let rb = reachable_functions(m, b);
        let ks = keys_of(&rb);
        let ghost prev = out@;
        merge_keys(&mut out, &ks);
        assert forall|x: u32|
            out@.contains_key(x) <==> exists|j: int| 0 <= j < i + 1 && #[trigger] reachable(*m, roots@[j], x) by {
            if out@.contains_key(x) {
                if prev.contains_key(x) {
                    let j = choose|j: int| 0 <= j < i && #[trigger] reachable(*m, roots@[j], x);
                    assert(0 <= j < i + 1 && reachable(*m, roots@[j], x));
                } else {
                    assert(ks@.contains(x));
                    assert(reachable(*m, roots@[i as int], x));
                }
            }
            if exists|j: int| 0 <= j < i + 1 && #[trigger] reachable(*m, roots@[j], x) {
                let j = choose|j: int| 0 <= j < i + 1 && #[trigger] reachable(*m, roots@[j], x);
                if j == i {
                    assert(rb@.contains_key(x));
                    assert(ks@.contains(x));
                } else {
                    assert(prev.contains_key(x));
                }
            }
        }
        i += 1;
    }
    assert forall|x: u32| out@.contains_key(x) <==> runs_in_loop(*m, root, x) by {
        lemma_runs_in_loop_iff(*m, root, x);
        if runs_in_loop(*m, root, x) {
            let b = choose|b: u32| loop_callee(*m, root, b) && #[trigger] reachable(*m, b, x);
            assert(roots@.contains(b));
            let j = choose|j: int| 0 <= j < roots@.len() && roots@[j] == b;
            assert(reachable(*m, roots@[j], x));
        }
        if out@.contains_key(x) {
            let j = choose|j: int| 0 <= j < roots@.len() && #[trigger] reachable(*m, roots@[j], x);
            assert(roots@.contains(roots@[j]));
        }
    }
    out
}

} // verus!
