//! Module-wide facts of a decoded contract.

use vstd::prelude::*;
use crate::gas_profiler::wasm::{
    instruction_sum, is_metadata_name, func_exports, strippable_sum, FunctionBody, Import, WasmModule,
};
use crate::gas_profiler::{merge_sorted, strictly_sorted, insert_sorted};
use crate::text::{lemma_seq_lt_asym, lemma_seq_lt_total, lemma_seq_lt_trans, push_str, seq_lt, str_eq, str_lt, string_views, to_owned_string};

verus! {

/// Module-wide facts.
#[derive(Debug, Clone, PartialEq)]
pub struct ModuleSummary {
    pub imports: usize,
    pub host_imports: usize,
    /// Function imports that are not host functions, as `module.field`.
    pub unknown_imports: Vec<String>,
    pub exported_functions: usize,
    pub defined_functions: usize,
    pub total_instructions: u64,
    pub globals: u32,
    pub data_segments: u32,
    pub data_bytes: usize,
    pub initial_memory_pages: u64,
    /// Custom sections and their sizes, sorted by name.
    pub custom_sections: Vec<(String, usize)>,
    pub strippable_custom_bytes: usize,
    pub has_start: bool,
    pub has_env_meta: bool,
    /// Features the network rejects, sorted and without repeats.
    pub rejected_features: Vec<String>,
    pub multi_value_types: usize,
    pub undecodable_functions: usize,
}

/// Function imports that name a host function.
pub open spec fn host_import_count(s: Seq<Import>) -> nat
    decreases s.len(),
{
    if s.len() == 0 {
        0
    } else {
        host_import_count(s.drop_last()) + if s.last().kind == 0 && s.last().host_name is Some {
            1nat
        } else {
            0nat
        }
    }
}

/// Function imports that name no host function, as `module.field`.
pub open spec fn unknown_import_names(s: Seq<Import>) -> Seq<Seq<char>>
    decreases s.len(),
{
    if s.len() == 0 {
        Seq::empty()
    } else if s.last().kind == 0 && s.last().host_name is None {
        unknown_import_names(s.drop_last()).push(s.last().module@ + "."@ + s.last().field@)
    } else {
        unknown_import_names(s.drop_last())
    }
}

/// Function types with more than one result.
pub open spec fn multi_value_count(types: Seq<(u32, u32)>) -> nat
    decreases types.len(),
{
    if types.len() == 0 {
        0
    } else {
        multi_value_count(types.drop_last()) + if types.last().1 > 1 {
            1nat
        } else {
            0nat
        }
    }
}

/// Bodies that could not be decoded.
pub open spec fn undecodable_count(fs: Seq<FunctionBody>) -> nat
    decreases fs.len(),
{
    if fs.len() == 0 {
        0
    } else {
        undecodable_count(fs.drop_last()) + if fs.last().decode_error is Some {
            1nat
        } else {
            0nat
        }
    }
}

/// The rejected features of all bodies, in order (with repeats).
pub open spec fn all_rejected(fs: Seq<FunctionBody>) -> Seq<Seq<char>>
    decreases fs.len(),
{
    if fs.len() == 0 {
        Seq::empty()
    } else {
        all_rejected(fs.drop_last()) + string_views(fs.last().rejected_features@)
    }
}

/// Custom sections as plain values.
pub open spec fn section_views(s: Seq<(String, usize)>) -> Seq<(Seq<char>, usize)> {
    s.map_values(|p: (String, usize)| (p.0@, p.1))
}

/// `v` holds a section named `n`.
pub open spec fn has_section(v: Seq<(String, usize)>, n: Seq<char>) -> bool {
    exists|t: int| 0 <= t < v.len() && (#[trigger] v[t]).0@ == n
}

/// Section names strictly increasing.
pub open spec fn sections_sorted(s: Seq<(Seq<char>, usize)>) -> bool {
    forall|i: int, j: int| 0 <= i < j < s.len() ==> seq_lt(#[trigger] s[i].0, #[trigger] s[j].0)
}

/// The facts `module_summary` reports of `m`.
pub open spec fn summary_of(m: WasmModule, s: ModuleSummary) -> bool {
    &&& s.imports == m.imports@.len()
    &&& s.host_imports == host_import_count(m.imports@)
    &&& string_views(s.unknown_imports@) == unknown_import_names(m.imports@)
    &&& s.exported_functions == func_exports(m.exports@).len()
    &&& s.defined_functions == m.functions@.len()
    &&& s.total_instructions == instruction_sum(m.functions@)
    &&& s.globals == m.global_count
    &&& s.data_segments == m.data_segment_count
    &&& s.data_bytes == m.data_bytes
    &&& s.initial_memory_pages == m.initial_memory_pages
    &&& sections_sorted(section_views(s.custom_sections@))
    &&& forall|p: (Seq<char>, usize)|
        section_views(s.custom_sections@).contains(p) ==> section_views(m.custom_sections@).contains(p)
    &&& forall|k: int|
        0 <= k < m.custom_sections@.len() ==> has_section(
            s.custom_sections@,
            (#[trigger] m.custom_sections@[k]).0@,
        )
    &&& s.strippable_custom_bytes == strippable_sum(m.custom_sections@)
    &&& s.has_start == m.has_start
    &&& s.has_env_meta == has_section(m.custom_sections@, "contractenvmetav0"@)
    &&& strictly_sorted(string_views(s.rejected_features@))
    &&& forall|f: Seq<char>|
        string_views(s.rejected_features@).contains(f) <==> all_rejected(m.functions@).contains(f) || (
        f == "multi-value"@ && multi_value_count(m.types@) > 0)
    &&& s.multi_value_types == multi_value_count(m.types@)
    &&& s.undecodable_functions == undecodable_count(m.functions@)
}

/// Inserts a custom section into a list sorted by name (a name already
/// present keeps its first size).
fn insert_section(v: &mut Vec<(String, usize)>, name: &str, size: usize)
    requires
        sections_sorted(section_views(old(v)@)),
    ensures
        sections_sorted(section_views(final(v)@)),
        forall|p: (Seq<char>, usize)|
            #[trigger] section_views(final(v)@).contains(p) ==> section_views(old(v)@).contains(p)
                || p == (name@, size),
        forall|p: (Seq<char>, usize)|
            section_views(old(v)@).contains(p) ==> #[trigger] section_views(final(v)@).contains(p),
        has_section(final(v)@, name@),
{
    let ghost ov = section_views(v@);
    let mut p: usize = 0;
    while p < v.len() && str_lt(v[p].0.as_str(), name)
        invariant
            ov == section_views(v@),
            p <= v@.len(),
            forall|i: int| 0 <= i < p ==> seq_lt(#[trigger] ov[i].0, name@),
        decreases v@.len() - p,
    {
        assert(ov[p as int] == (v@[p as int].0@, v@[p as int].1));
        p += 1;
    }
    if p < v.len() {
        assert(ov[p as int] == (v@[p as int].0@, v@[p as int].1));
        if str_eq(v[p].0.as_str(), name) {
            assert(v@[p as int].0@ == name@);
            return;
        }
        proof {
            lemma_seq_lt_total(ov[p as int].0, name@);
        }
    }
    let ghost pp = p as int;
    v.insert(p, (to_owned_string(name), size));
    proof {
        let nv = section_views(v@);
        assert(nv =~= ov.insert(pp, (name@, size)));
        assert(v@[pp].0@ == name@);
        assert forall|i: int, j: int| 0 <= i < j < nv.len() implies seq_lt(
            #[trigger] nv[i].0,
            #[trigger] nv[j].0,
        ) by {
            if j < pp {
                assert(nv[i] == ov[i] && nv[j] == ov[j]);
            } else if j == pp {
                assert(nv[i] == ov[i]);
            } else if i == pp {
                assert(nv[j] == ov[j - 1]);
                assert(seq_lt(name@, ov[pp].0));
                if j - 1 > pp {
                    assert(seq_lt(ov[pp].0, ov[j - 1].0));
                    lemma_seq_lt_trans(name@, ov[pp].0, ov[j - 1].0);
                }
            } else if i < pp {
                assert(nv[i] == ov[i] && nv[j] == ov[j - 1]);
                if j - 1 >= pp {
                    assert(seq_lt(ov[i].0, name@));
                    assert(seq_lt(name@, ov[pp].0));
                    lemma_seq_lt_trans(ov[i].0, name@, ov[pp].0);
                    if j - 1 > pp {
                        lemma_seq_lt_trans(ov[i].0, ov[pp].0, ov[j - 1].0);
                    }
                }
            } else {
                assert(nv[i] == ov[i - 1] && nv[j] == ov[j - 1]);
            }
        }
        assert forall|q: (Seq<char>, usize)| #[trigger] nv.contains(q) implies ov.contains(q) || q == (
        name@, size) by {
            let t = choose|t: int| 0 <= t < nv.len() && nv[t] == q;
            if t < pp {
                assert(ov[t] == q);
            } else if t > pp {
                assert(ov[t - 1] == q);
            }
        }
        assert forall|q: (Seq<char>, usize)| ov.contains(q) implies #[trigger] nv.contains(q) by {
            let t = choose|t: int| 0 <= t < ov.len() && ov[t] == q;
            if t < pp {
                assert(nv[t] == q);
            } else {
                assert(nv[t + 1] == q);
            }
        }
    }
}

/// The custom sections sorted by name.
fn sorted_sections(s: &Vec<(String, usize)>) -> (r: Vec<(String, usize)>)
    ensures
        sections_sorted(section_views(r@)),
        forall|p: (Seq<char>, usize)| section_views(r@).contains(p) ==> section_views(s@).contains(p),
        forall|k: int| 0 <= k < s@.len() ==> has_section(r@, (#[trigger] s@[k]).0@),
{
    let mut out: Vec<(String, usize)> = Vec::new();
    let mut i: usize = 0;
    while i < s.len()
        invariant
            i <= s@.len(),
            sections_sorted(section_views(out@)),
            forall|p: (Seq<char>, usize)|
                section_views(out@).contains(p) ==> section_views(s@).take(i as int).contains(p),
            forall|k: int| 0 <= k < i ==> has_section(out@, (#[trigger] s@[k]).0@),
        decreases s@.len() - i,
    {
        let ghost before = section_views(out@);
        let ghost prev = out@;
        let ghost sv = section_views(s@);
        insert_section(&mut out, s[i].0.as_str(), s[i].1);
        proof {
            assert(sv[i as int] == (s@[i as int].0@, s@[i as int].1));
            assert forall|p: (Seq<char>, usize)|
                section_views(out@).contains(p) implies sv.take(i + 1).contains(p) by {
                if before.contains(p) {
                    assert(sv.take(i as int).contains(p));
                    let t = choose|t: int| 0 <= t < i && sv.take(i as int)[t] == p;
                    assert(sv.take(i + 1)[t] == p);
                } else {
                    assert(sv.take(i + 1)[i as int] == p);
                }
            }
            assert forall|k: int| 0 <= k < i + 1 implies has_section(out@, (#[trigger] s@[k]).0@) by {
                if k < i {
                    assert(has_section(prev, s@[k].0@));
                    let t = choose|t: int| 0 <= t < prev.len() && (#[trigger] prev[t]).0@ == s@[k].0@;
                    assert(before[t] == (prev[t].0@, prev[t].1));
                    assert(section_views(out@).contains(before[t]));
                    let u = choose|u: int| 0 <= u < out@.len() && section_views(out@)[u] == before[t];
                    assert(out@[u].0@ == s@[k].0@);
                }
            }
        }
        i += 1;
    }
    proof {
        assert(section_views(s@).take(i as int) =~= section_views(s@));
    }
    out
}

/// Counts function imports with and without a host function name, and
/// lists the latter as `module.field`.
fn import_facts(imports: &Vec<Import>) -> (r: (usize, Vec<String>))
    ensures
        r.0 == host_import_count(imports@),
        string_views(r.1@) == unknown_import_names(imports@),
{
    let mut host: usize = 0;
    let mut unknown: Vec<String> = Vec::new();
    let mut i: usize = 0;
    while i < imports.len()
        invariant
            i <= imports@.len(),
            host == host_import_count(imports@.take(i as int)),
            host <= i,
            string_views(unknown@) == unknown_import_names(imports@.take(i as int)),
        decreases imports@.len() - i,
    {
        assert(imports@.take(i + 1).drop_last() =~= imports@.take(i as int));
        let imp = &imports[i];
        if imp.kind == 0 {
            match &imp.host_name {
                Some(_) => {
                    host += 1;
                },
                None => {
                    let mut n = to_owned_string(imp.module.as_str());
                    push_str(&mut n, ".");
                    push_str(&mut n, imp.field.as_str());
                    let ghost before = unknown@;
                    unknown.push(n);
                    proof {
                        crate::text::lemma_string_views_push(before, n);
                    }
                },
            }
        }
        i += 1;
    }
    assert(imports@.take(i as int) =~= imports@);
    (host, unknown)
}

/// Function types with more than one result.
fn count_multi_value(types: &Vec<(u32, u32)>) -> (r: usize)
    ensures
        r == multi_value_count(types@),
{
    let mut n: usize = 0;
    let mut i: usize = 0;
    while i < types.len()
        invariant
            i <= types@.len(),
            n == multi_value_count(types@.take(i as int)),
            n <= i,
        decreases types@.len() - i,
    {
        assert(types@.take(i + 1).drop_last() =~= types@.take(i as int));
        if types[i].1 > 1 {
            n += 1;
        }
        i += 1;
    }
    assert(types@.take(i as int) =~= types@);
    n
}

/// Bodies with a decode error, and the sorted rejected features of all
/// bodies.
fn body_facts(fs: &Vec<FunctionBody>) -> (r: (usize, Vec<String>))
    ensures
        r.0 == undecodable_count(fs@),
        strictly_sorted(string_views(r.1@)),
        forall|f: Seq<char>| string_views(r.1@).contains(f) <==> all_rejected(fs@).contains(f),
{
    let mut bad: usize = 0;
    let mut rejected: Vec<String> = Vec::new();
    let mut i: usize = 0;
    while i < fs.len()
        invariant
            i <= fs@.len(),
            bad == undecodable_count(fs@.take(i as int)),
            bad <= i,
            strictly_sorted(string_views(rejected@)),
            forall|f: Seq<char>|
                string_views(rejected@).contains(f) <==> all_rejected(fs@.take(i as int)).contains(f),
        decreases fs@.len() - i,
    {
        assert(fs@.take(i + 1).drop_last() =~= fs@.take(i as int));
        let ghost pre = all_rejected(fs@.take(i as int));
        let ghost before = string_views(rejected@);
        if fs[i].decode_error.is_some() {
            bad += 1;
        }
        merge_sorted(&mut rejected, &fs[i].rejected_features);
        proof {
            let bv = string_views(fs@[i as int].rejected_features@);
            assert(all_rejected(fs@.take(i + 1)) =~= pre + bv);
            assert forall|f: Seq<char>|
                string_views(rejected@).contains(f) <==> (pre + bv).contains(f) by {
                assert(before.contains(f) <==> pre.contains(f));
                assert(string_views(rejected@).contains(f) <==> before.contains(f) || bv.contains(f));
                crate::gas_profiler::lemma_concat_contains(pre, bv, f);
            }
        }
        i += 1;
    }
    assert(fs@.take(i as int) =~= fs@);
    (bad, rejected)
}

/// Whether a section named `name` is present.
fn find_section(v: &Vec<(String, usize)>, name: &str) -> (r: bool)
    ensures
        r == has_section(v@, name@),
{
    let mut i: usize = 0;
    while i < v.len()
        invariant
            i <= v@.len(),
            forall|k: int| 0 <= k < i ==> (#[trigger] v@[k]).0@ != name@,
        decreases v@.len() - i,
    {
        if str_eq(v[i].0.as_str(), name) {
            return true;
        }
        i += 1;
    }
    false
}

/// Module-wide facts of a decoded module.
pub fn module_summary(m: &WasmModule) -> (s: ModuleSummary)
    ensures
        summary_of(*m, s),
{
    let (host_imports, unknown_imports) = import_facts(&m.imports);
    let multi_value_types = count_multi_value(&m.types);
    let (undecodable_functions, mut rejected) = body_facts(&m.functions);
    let ghost before = string_views(rejected@);
    if multi_value_types > 0 {
        insert_sorted(&mut rejected, "multi-value");
    }
    let exports = m.function_exports();
    let s = ModuleSummary {
        imports: m.imports.len(),
        host_imports,
        unknown_imports,
        exported_functions: exports.len(),
        defined_functions: m.functions.len(),
        total_instructions: m.total_instructions(),
        globals: m.global_count,
        data_segments: m.data_segment_count,
        data_bytes: m.data_bytes,
        initial_memory_pages: m.initial_memory_pages,
        custom_sections: sorted_sections(&m.custom_sections),
        strippable_custom_bytes: m.strippable_custom_bytes(),
        has_start: m.has_start,
        has_env_meta: find_section(&m.custom_sections, "contractenvmetav0"),
        rejected_features: rejected,
        multi_value_types,
        undecodable_functions,
    };
    proof {
        assert forall|f: Seq<char>|
            string_views(s.rejected_features@).contains(f) <==> all_rejected(m.functions@).contains(f) || (
            f == "multi-value"@ && multi_value_count(m.types@) > 0) by {
            assert(before.contains(f) <==> all_rejected(m.functions@).contains(f));
        }
    }
    s
}

} // verus!
