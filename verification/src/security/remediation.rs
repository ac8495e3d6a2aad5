//! Recommendations drawn from findings, and remediation tracking across
//! runs: new findings open, disappearing ones resolve (only in the files
//! analyzed), returning ones reopen, and accepted risks stay accepted.

use vstd::prelude::*;
use crate::security::best_practices::{BestPracticeRule, Finding, Severity, TrackedStatus};
use crate::text::{
    decimal, decimal_string, is_prefix, lemma_seq_lt_asym, lemma_seq_lt_total, lemma_seq_lt_trans,
    push_str, seq_lt, str_eq, str_lt, string_views, to_owned_string,
};

verus! {

// ── Recommendations ───────────────────────────────────────────────────────────

/// One recommended action: a rule with findings, how often it fired and
/// where.
#[derive(Debug, Clone, PartialEq)]
pub struct Recommendation {
    /// 1 for the action with the largest score impact.
    pub priority: usize,
    pub rule_id: String,
    pub title: String,
    pub severity: Severity,
    pub occurrences: usize,
    pub action: String,
    pub rationale: String,
    pub references: Vec<String>,
    /// `file:line` of each finding, in report order.
    pub locations: Vec<String>,
}

/// A recommendation as plain values (without its priority): rule id, title,
/// severity, occurrences, action, rationale, references, locations.
pub type RecommendationView = (
    Seq<char>,
    Seq<char>,
    Severity,
    int,
    Seq<char>,
    Seq<char>,
    Seq<Seq<char>>,
    Seq<Seq<char>>,
);

pub open spec fn recommendation_view(r: Recommendation) -> RecommendationView {
    (
        r.rule_id@,
        r.title@,
        r.severity,
        r.occurrences as int,
        r.action@,
        r.rationale@,
        string_views(r.references@),
        string_views(r.locations@),
    )
}

pub open spec fn recommendation_views(rs: Seq<Recommendation>) -> Seq<RecommendationView> {
    rs.map_values(|r: Recommendation| recommendation_view(r))
}

/// Score weight of a severity.
pub open spec fn severity_weight(s: Severity) -> int {
    match s {
        Severity::Info => 1,
        Severity::Low => 3,
        Severity::Medium => 8,
        Severity::High => 15,
        Severity::Critical => 25,
    }
}

/// Four times the score penalty of `count` findings of one rule: the
/// weight, plus a quarter of it for each repeat, at most twice the weight.
pub open spec fn impact(s: Severity, count: int) -> int {
    severity_weight(s) * if count + 3 < 8 {
        count + 3
    } else {
        8
    }
}

/// `file:line` of each finding of the rule `id` among `fs`, in order.
pub open spec fn locations_of(fs: Seq<Finding>, id: Seq<char>) -> Seq<Seq<char>>
    decreases fs.len(),
{
    if fs.len() == 0 {
        Seq::empty()
    } else if fs.last().rule_id@ == id {
        locations_of(fs.drop_last(), id).push(fs.last().file@ + ":"@ + decimal(fs.last().line as nat))
    } else {
        locations_of(fs.drop_last(), id)
    }
}

/// The recommendation for `rule` given its locations.
pub open spec fn rule_recommendation(rule: BestPracticeRule, locs: Seq<Seq<char>>) -> RecommendationView {
    (
        rule.id@,
        rule.title@,
        rule.severity,
        locs.len() as int,
        rule.recommendation@,
        rule.rationale@,
        rule.references@.map_values(|r: &'static str| r@),
        locs,
    )
}

/// One recommendation per rule of `rules` that has findings, in rule order.
pub open spec fn candidate_recommendations(rules: Seq<BestPracticeRule>, fs: Seq<Finding>) -> Seq<
    RecommendationView,
>
    decreases rules.len(),
{
    if rules.len() == 0 {
        Seq::empty()
    } else {
        let rest = candidate_recommendations(rules.drop_last(), fs);
        let locs = locations_of(fs, rules.last().id@);
        if locs.len() > 0 {
            rest.push(rule_recommendation(rules.last(), locs))
        } else {
            rest
        }
    }
}

/// `a` must be listed after `b`: a smaller score impact, or the same and a
/// later rule id.
pub open spec fn recommendation_after(a: RecommendationView, b: RecommendationView) -> bool {
    impact(a.2, a.3) < impact(b.2, b.3) || (impact(a.2, a.3) == impact(b.2, b.3) && seq_lt(b.0, a.0))
}

/// Recommendations largest impact first.
pub open spec fn recommendations_sorted(s: Seq<RecommendationView>) -> bool {
    forall|i: int, j: int| 0 <= i < j < s.len() ==> !recommendation_after(#[trigger] s[i], #[trigger] s[j])
}

proof fn lemma_recommendation_order(a: RecommendationView, b: RecommendationView, c: RecommendationView)
    ensures
        recommendation_after(a, b) ==> !recommendation_after(b, a),
        recommendation_after(a, b) && recommendation_after(b, c) ==> recommendation_after(a, c),
        !recommendation_after(a, b) ==> recommendation_after(b, a) || (impact(a.2, a.3) == impact(
            b.2,
            b.3,
        ) && a.0 == b.0),
{
    lemma_seq_lt_asym(a.0, b.0);
    lemma_seq_lt_asym(b.0, a.0);
    lemma_seq_lt_total(a.0, b.0);
    if seq_lt(b.0, a.0) && seq_lt(c.0, b.0) {
        lemma_seq_lt_trans(c.0, b.0, a.0);
    }
}

fn weight_of(s: Severity) -> (r: u64)
    ensures
        r == severity_weight(s),
        r <= 25,
{
    match s {
        Severity::Info => 1,
        Severity::Low => 3,
        Severity::Medium => 8,
        Severity::High => 15,
        Severity::Critical => 25,
    }
}

fn impact_exec(s: Severity, count: usize) -> (r: u64)
    ensures
        r == impact(s, count as int),
{
    let m: u64 = if count < 5 {
        (count + 3) as u64
    } else {
        8
    };
    let w = weight_of(s);
    assert(w * m <= 25 * 8) by (nonlinear_arith)
        requires
            w <= 25,
            m <= 8,
    ;
    w * m
}

fn recommendation_after_exec(a: &Recommendation, b: &Recommendation) -> (r: bool)
    ensures
        r == recommendation_after(recommendation_view(*a), recommendation_view(*b)),
{
    let ia = impact_exec(a.severity, a.occurrences);
    let ib = impact_exec(b.severity, b.occurrences);
    ia < ib || (ia == ib && str_lt(b.rule_id.as_str(), a.rule_id.as_str()))
}

/// `file:line` of each finding of the rule `id`.
fn locations(fs: &Vec<Finding>, id: &str) -> (r: Vec<String>)
    ensures
        string_views(r@) == locations_of(fs@, id@),
{
    let mut out: Vec<String> = Vec::new();
    let mut i: usize = 0;
    while i < fs.len()
        invariant
            i <= fs@.len(),
            string_views(out@) == locations_of(fs@.take(i as int), id@),
        decreases fs@.len() - i,
    {
        assert(fs@.take(i + 1).drop_last() =~= fs@.take(i as int));
        if str_eq(fs[i].rule_id.as_str(), id) {
            let mut l = to_owned_string(fs[i].file.as_str());
            push_str(&mut l, ":");
            push_str(&mut l, decimal_string(fs[i].line as u64).as_str());
            let ghost before = out@;
            out.push(l);
            proof {
                crate::text::lemma_string_views_push(before, l);
            }
        }
        i += 1;
    }
    assert(fs@.take(i as int) =~= fs@);
    out
}

/// The references of a rule as owned strings.
fn owned_references(refs: &Vec<&'static str>) -> (r: Vec<String>)
    ensures
        string_views(r@) == refs@.map_values(|x: &'static str| x@),
{
    let mut out: Vec<String> = Vec::new();
    let mut i: usize = 0;
    while i < refs.len()
        invariant
            i <= refs@.len(),
            string_views(out@) == refs@.take(i as int).map_values(|x: &'static str| x@),
        decreases refs@.len() - i,
    {
        let ghost before = out@;
        let s = to_owned_string(refs[i]);
        out.push(s);
        proof {
            crate::text::lemma_string_views_push(before, s);
            assert(refs@.take(i + 1).map_values(|x: &'static str| x@) =~= refs@.take(i as int).map_values(
                |x: &'static str| x@,
            ).push(refs@[i as int]@));
        }
        i += 1;
    }
    assert(refs@.take(i as int) =~= refs@);
    out
}

/// One recommendation per rule with findings, in rule order, priority 0.
fn candidates(rules: &Vec<BestPracticeRule>, fs: &Vec<Finding>) -> (r: Vec<Recommendation>)
    ensures
        recommendation_views(r@) == candidate_recommendations(rules@, fs@),
{
    let mut out: Vec<Recommendation> = Vec::new();
    let mut i: usize = 0;
    assert(recommendation_views(out@) =~= Seq::<RecommendationView>::empty());
    while i < rules.len()
        invariant
            i <= rules@.len(),
            recommendation_views(out@) == candidate_recommendations(rules@.take(i as int), fs@),
        decreases rules@.len() - i,
    {
        assert(rules@.take(i + 1).drop_last() =~= rules@.take(i as int));
        let rule = &rules[i];
        let locs = locations(fs, rule.id);
        if locs.len() > 0 {
            let r = Recommendation {
                priority: 0,
                rule_id: to_owned_string(rule.id),
                title: to_owned_string(rule.title),
                severity: rule.severity,
                occurrences: locs.len(),
                action: to_owned_string(rule.recommendation),
                rationale: to_owned_string(rule.rationale),
                references: owned_references(&rule.references),
                locations: locs,
            };
            let ghost before = out@;
            out.push(r);
            assert(recommendation_views(out@) =~= recommendation_views(before).push(recommendation_view(r)));
        }
        i += 1;
    }
    assert(rules@.take(i as int) =~= rules@);
    out
}

/// Sorts recommendations by score impact (largest first), then rule id.
fn sort_recommendations(v: Vec<Recommendation>) -> (r: Vec<Recommendation>)
    ensures
        recommendations_sorted(recommendation_views(r@)),
        recommendation_views(r@).to_multiset() == recommendation_views(v@).to_multiset(),
{
    let mut out: Vec<Recommendation> = Vec::new();
    let ghost src = recommendation_views(v@);
    let mut rest = v;
    assert(recommendation_views(out@) =~= Seq::<RecommendationView>::empty());
    proof {
        recommendation_views(out@).to_multiset_ensures();
        vstd::multiset::lemma_multiset_empty_len(recommendation_views(out@).to_multiset());
    }
    assert(recommendation_views(out@).to_multiset().add(recommendation_views(rest@).to_multiset())
        =~= src.to_multiset());
    while rest.len() > 0
        invariant
            recommendations_sorted(recommendation_views(out@)),
            recommendation_views(out@).to_multiset().add(recommendation_views(rest@).to_multiset())
                == src.to_multiset(),
        decreases rest@.len(),
    {
        let ghost before = rest@;
        let x = rest.remove(0);
        proof {
            assert(recommendation_views(before) =~= recommendation_views(rest@).insert(
                0,
                recommendation_view(x),
            ));
            vstd::seq_lib::to_multiset_insert(recommendation_views(rest@), 0, recommendation_view(x));
        }
        let mut p: usize = 0;
        while p < out.len() && !recommendation_after_exec(&out[p], &x)
            invariant
                p <= out@.len(),
                forall|i: int|
                    0 <= i < p ==> !recommendation_after(
                        #[trigger] recommendation_views(out@)[i],
                        recommendation_view(x),
                    ),
            decreases out@.len() - p,
        {
            p += 1;
        }
        let ghost ov = recommendation_views(out@);
        out.insert(p, x);
        proof {
            assert(recommendation_views(out@) =~= ov.insert(p as int, recommendation_view(x)));
            vstd::seq_lib::to_multiset_insert(ov, p as int, recommendation_view(x));
            let nv = recommendation_views(out@);
            let xv = recommendation_view(x);
            assert forall|i: int, j: int| 0 <= i < j < nv.len() implies !recommendation_after(
                #[trigger] nv[i],
                #[trigger] nv[j],
            ) by {
                if j < p {
                    assert(nv[i] == ov[i] && nv[j] == ov[j]);
                } else if j == p {
                    assert(nv[i] == ov[i] && nv[j] == xv);
                } else if i == p {
                    assert(nv[j] == ov[j - 1]);
                    assert(recommendation_after(ov[p as int], xv));
                    if p < j - 1 {
                        assert(!recommendation_after(ov[p as int], ov[j - 1]));
                    }
                    lemma_recommendation_order(xv, ov[j - 1], xv);
                    lemma_recommendation_order(ov[p as int], xv, ov[j - 1]);
                    lemma_recommendation_order(ov[j - 1], xv, ov[j - 1]);
                    lemma_recommendation_order(ov[p as int], ov[j - 1], xv);
                    lemma_recommendation_order(xv, ov[p as int], ov[j - 1]);
                } else if i < p {
                    assert(nv[i] == ov[i] && nv[j] == ov[j - 1]);
                } else {
                    assert(nv[i] == ov[i - 1] && nv[j] == ov[j - 1]);
                }
            }
        }
    }
    assert(recommendation_views(rest@) =~= Seq::<RecommendationView>::empty());
    proof {
        recommendation_views(rest@).to_multiset_ensures();
        vstd::multiset::lemma_multiset_empty_len(recommendation_views(rest@).to_multiset());
    }
    assert(recommendation_views(out@).to_multiset() =~= recommendation_views(out@).to_multiset().add(
        recommendation_views(rest@).to_multiset(),
    ));
    out
}

/// One recommendation per rule with findings: its title, severity, how
/// often it fired and where, the action and references; largest score
/// impact first (then by rule id), numbered from 1.
pub fn recommendations(rules: &Vec<BestPracticeRule>, findings: &Vec<Finding>) -> (r: Vec<
    Recommendation,
>)
    ensures
        recommendations_sorted(recommendation_views(r@)),
        recommendation_views(r@).to_multiset() == candidate_recommendations(rules@, findings@).to_multiset(),
        forall|i: int| 0 <= i < r@.len() ==> (#[trigger] r@[i]).priority == i + 1,
{
    let sorted = sort_recommendations(candidates(rules, findings));
    let mut out: Vec<Recommendation> = Vec::new();
    let mut i: usize = 0;
    while i < sorted.len()
        invariant
            i <= sorted@.len(),
            out@.len() == i,
            recommendation_views(out@) == recommendation_views(sorted@).take(i as int),
            forall|k: int| 0 <= k < i ==> (#[trigger] out@[k]).priority == k + 1,
        decreases sorted@.len() - i,
    {
        let s = &sorted[i];
        let r = Recommendation {
            priority: i + 1,
            rule_id: s.rule_id.clone(),
            title: s.title.clone(),
            severity: s.severity,
            occurrences: s.occurrences,
            action: s.action.clone(),
            rationale: s.rationale.clone(),
            references: s.references.clone(),
            locations: s.locations.clone(),
        };
        let ghost before = out@;
        out.push(r);
        proof {
            assert(recommendation_view(r) == recommendation_view(sorted@[i as int]));
            assert(recommendation_views(out@) =~= recommendation_views(sorted@).take(i + 1));
        }
        i += 1;
    }
    assert(recommendation_views(sorted@).take(i as int) =~= recommendation_views(sorted@));
    out
}

// ── Remediation tracking ──────────────────────────────────────────────────────

/// A finding followed across runs.
#[derive(Debug, Clone, PartialEq)]
pub struct TrackedFinding {
    pub fingerprint: String,
    pub rule_id: String,
    pub title: String,
    pub severity: Severity,
    pub file: String,
    pub line: usize,
    pub status: TrackedStatus,
    pub first_seen: String,
    pub last_seen: String,
    pub resolved_at: Option<String>,
    pub note: Option<String>,
}

/// Outcome of tracking findings against the remediation state.
#[derive(Debug, Clone, Copy, PartialEq, Eq, Structural)]
pub struct RemediationProgress {
    /// Findings that opened in this run: seen for the first time, or back
    /// after being resolved.
    pub new: usize,
    pub open: usize,
    pub resolved_this_run: usize,
    pub accepted: usize,
    pub total_resolved: usize,
}

/// The state holds an entry for fingerprint `k`.
pub open spec fn has_key(v: Seq<TrackedFinding>, k: Seq<char>) -> bool {
    exists|i: int| 0 <= i < v.len() && (#[trigger] v[i]).fingerprint@ == k
}

/// No fingerprint occurs twice in the state.
pub open spec fn keys_unique(v: Seq<TrackedFinding>) -> bool {
    forall|i: int, j: int|
        0 <= i < j < v.len() ==> (#[trigger] v[i]).fingerprint@ != (#[trigger] v[j]).fingerprint@
}

/// The entry for fingerprint `k`.
#[verifier::opaque]
pub open spec fn entry_for(v: Seq<TrackedFinding>, k: Seq<char>) -> TrackedFinding {
    v[choose|i: int| 0 <= i < v.len() && (#[trigger] v[i]).fingerprint@ == k]
}

/// Some finding of `fs` has fingerprint `k`.
pub open spec fn reported(fs: Seq<Finding>, k: Seq<char>) -> bool {
    exists|j: int| 0 <= j < fs.len() && (#[trigger] fs[j]).fingerprint@ == k
}

/// The last finding of `fs` with fingerprint `k`.
pub open spec fn last_with(fs: Seq<Finding>, k: Seq<char>) -> Finding
    decreases fs.len(),
{
    if fs.len() == 0 {
        arbitrary()
    } else if fs.last().fingerprint@ == k {
        fs.last()
    } else {
        last_with(fs.drop_last(), k)
    }
}

/// The first finding of `fs` with fingerprint `k`.
pub open spec fn first_with(fs: Seq<Finding>, k: Seq<char>) -> Finding
    decreases fs.len(),
{
    if fs.len() == 0 {
        arbitrary()
    } else if reported(fs.drop_last(), k) {
        first_with(fs.drop_last(), k)
    } else {
        fs.last()
    }
}

/// `f` is one of the analyzed files.
pub open spec fn file_listed(files: Seq<String>, f: Seq<char>) -> bool {
    exists|i: int| 0 <= i < files.len() && (#[trigger] files[i])@ == f
}

/// The finding with fingerprint `k` opens in this run: it is reported and
/// was unknown or resolved.
pub open spec fn opens(prior: Seq<TrackedFinding>, fs: Seq<Finding>, k: Seq<char>) -> bool {
    reported(fs, k) && (!has_key(prior, k) || entry_for(prior, k).status == TrackedStatus::Resolved)
}

/// The tracked finding `k` resolves in this run: it was open, its file was
/// analyzed, and it is no longer reported.
pub open spec fn resolves(prior: Seq<TrackedFinding>, fs: Seq<Finding>, files: Seq<String>, k: Seq<char>) -> bool {
    !reported(fs, k) && has_key(prior, k) && entry_for(prior, k).status == TrackedStatus::Open && file_listed(
        files,
        entry_for(prior, k).file@,
    )
}

/// `t` is the entry for a reported fingerprint after a run at `now`: seen
/// now at the last reported line; a known entry keeps its identity and
/// history and reopens if it was resolved; an unknown one opens with the
/// first report's details.
pub open spec fn seen_entry(prior: Seq<TrackedFinding>, fs: Seq<Finding>, now: Seq<char>, t: TrackedFinding) -> bool {
    let k = t.fingerprint@;
    &&& t.last_seen@ == now
    &&& t.line == last_with(fs, k).line
    &&& if has_key(prior, k) {
        let o = entry_for(prior, k);
        &&& t.rule_id == o.rule_id
        &&& t.title == o.title
        &&& t.severity == o.severity
        &&& t.file == o.file
        &&& t.first_seen == o.first_seen
        &&& t.note == o.note
        &&& t.status == if o.status == TrackedStatus::Resolved {
            TrackedStatus::Open
        } else {
            o.status
        }
        &&& t.resolved_at == if o.status == TrackedStatus::Resolved {
            None
        } else {
            o.resolved_at
        }
    } else {
        let f = first_with(fs, k);
        &&& t.rule_id@ == f.rule_id@
        &&& t.title@ == f.title@
        &&& t.severity == f.severity
        &&& t.file@ == f.file@
        &&& t.first_seen@ == now
        &&& t.note is None
        &&& t.status == TrackedStatus::Open
        &&& t.resolved_at is None
    }
}

/// `t` is the state's entry for its fingerprint after a run.
pub open spec fn entry_after(
    prior: Seq<TrackedFinding>,
    fs: Seq<Finding>,
    files: Seq<String>,
    now: Seq<char>,
    t: TrackedFinding,
) -> bool {
    let k = t.fingerprint@;
    if reported(fs, k) {
        seen_entry(prior, fs, now, t)
    } else if resolves(prior, fs, files, k) {
        let o = entry_for(prior, k);
        &&& t.rule_id == o.rule_id
        &&& t.title == o.title
        &&& t.severity == o.severity
        &&& t.file == o.file
        &&& t.line == o.line
        &&& t.first_seen == o.first_seen
        &&& t.last_seen == o.last_seen
        &&& t.note == o.note
        &&& t.status == TrackedStatus::Resolved
        &&& t.resolved_at matches Some(at) && at@ == now
    } else {
        has_key(prior, k) && t == entry_for(prior, k)
    }
}

/// Entries of `v` whose finding opened in this run.
pub open spec fn opened_count(prior: Seq<TrackedFinding>, fs: Seq<Finding>, v: Seq<TrackedFinding>) -> nat
    decreases v.len(),
{
    if v.len() == 0 {
        0
    } else {
        opened_count(prior, fs, v.drop_last()) + if opens(prior, fs, v.last().fingerprint@) {
            1nat
        } else {
            0nat
        }
    }
}

/// Entries of `v` that resolved in this run.
pub open spec fn resolved_count(
    prior: Seq<TrackedFinding>,
    fs: Seq<Finding>,
    files: Seq<String>,
    v: Seq<TrackedFinding>,
) -> nat
    decreases v.len(),
{
    if v.len() == 0 {
        0
    } else {
        resolved_count(prior, fs, files, v.drop_last()) + if resolves(prior, fs, files, v.last().fingerprint@) {
            1nat
        } else {
            0nat
        }
    }
}

/// Entries of `v` with status `s`.
pub open spec fn status_count(v: Seq<TrackedFinding>, s: TrackedStatus) -> nat
    decreases v.len(),
{
    if v.len() == 0 {
        0
    } else {
        status_count(v.drop_last(), s) + if v.last().status == s {
            1nat
        } else {
            0nat
        }
    }
}

/// The state `new` and progress `p` after reconciling `prior` with the
/// findings `fs` of a run over `files` at `now`.
pub open spec fn reconciled(
    prior: Seq<TrackedFinding>,
    fs: Seq<Finding>,
    files: Seq<String>,
    now: Seq<char>,
    new: Seq<TrackedFinding>,
    p: RemediationProgress,
) -> bool {
    &&& keys_unique(new)
    &&& forall|k: Seq<char>| has_key(new, k) <==> has_key(prior, k) || reported(fs, k)
    &&& forall|i: int| 0 <= i < new.len() ==> entry_after(prior, fs, files, now, #[trigger] new[i])
    &&& p.new == opened_count(prior, fs, new)
    &&& p.resolved_this_run == resolved_count(prior, fs, files, new)
    &&& p.open == status_count(new, TrackedStatus::Open)
    &&& p.accepted == status_count(new, TrackedStatus::Accepted)
    &&& p.total_resolved == status_count(new, TrackedStatus::Resolved)
}

/// The entry for the fingerprint of `v[i]` is `v[i]` when fingerprints
/// are unique.
pub proof fn lemma_entry_for(v: Seq<TrackedFinding>, i: int)
    requires
        keys_unique(v),
        0 <= i < v.len(),
    ensures
        has_key(v, v[i].fingerprint@),
        entry_for(v, v[i].fingerprint@) == v[i],
{
    reveal(entry_for);
    let k = v[i].fingerprint@;
    assert(v[i].fingerprint@ == k);
    let c = choose|c: int| 0 <= c < v.len() && (#[trigger] v[c]).fingerprint@ == k;
    if c != i {
        if c < i {
            assert(v[c].fingerprint@ != v[i].fingerprint@);
        } else {
            assert(v[i].fingerprint@ != v[c].fingerprint@);
        }
    }
}

proof fn lemma_reported_push(fs: Seq<Finding>, j: int, k: Seq<char>)
    requires
        0 <= j < fs.len(),
    ensures
        reported(fs.take(j + 1), k) <==> reported(fs.take(j), k) || fs[j].fingerprint@ == k,
        fs.take(j + 1).drop_last() == fs.take(j),
        fs.take(j + 1).last() == fs[j],
{
    assert(fs.take(j + 1).drop_last() =~= fs.take(j));
    if reported(fs.take(j + 1), k) {
        let q = choose|q: int| 0 <= q < j + 1 && (#[trigger] fs.take(j + 1)[q]).fingerprint@ == k;
        if q < j {
            assert(fs.take(j)[q] == fs.take(j + 1)[q]);
        }
    }
    if reported(fs.take(j), k) {
        let q = choose|q: int| 0 <= q < j && (#[trigger] fs.take(j)[q]).fingerprint@ == k;
        assert(fs.take(j + 1)[q] == fs.take(j)[q]);
    }
    if fs[j].fingerprint@ == k {
        assert(fs.take(j + 1)[j] == fs[j]);
    }
}

/// Index of the entry with fingerprint `k`, if any.
fn find_tracked(v: &Vec<TrackedFinding>, k: &str) -> (r: Option<usize>)
    ensures
        match r {
            Some(i) => i < v@.len() && v@[i as int].fingerprint@ == k@,
            None => !has_key(v@, k@),
        },
{
    let mut i: usize = 0;
    while i < v.len()
        invariant
            i <= v@.len(),
            forall|q: int| 0 <= q < i ==> (#[trigger] v@[q]).fingerprint@ != k@,
        decreases v@.len() - i,
    {
        if str_eq(v[i].fingerprint.as_str(), k) {
            return Some(i);
        }
        i += 1;
    }
    None
}

/// Whether `f` is one of `files`.
fn listed(files: &Vec<String>, f: &str) -> (r: bool)
    ensures
        r == file_listed(files@, f@),
{
    let mut i: usize = 0;
    while i < files.len()
        invariant
            i <= files@.len(),
            forall|q: int| 0 <= q < i ==> (#[trigger] files@[q])@ != f@,
        decreases files@.len() - i,
    {
        if str_eq(files[i].as_str(), f) {
            return true;
        }
        i += 1;
    }
    false
}

/// Whether some finding has fingerprint `k`.
fn is_reported(fs: &Vec<Finding>, k: &str) -> (r: bool)
    ensures
        r == reported(fs@, k@),
{
    let mut i: usize = 0;
    while i < fs.len()
        invariant
            i <= fs@.len(),
            forall|q: int| 0 <= q < i ==> (#[trigger] fs@[q]).fingerprint@ != k@,
        decreases fs@.len() - i,
    {
        if str_eq(fs[i].fingerprint.as_str(), k) {
            return true;
        }
        i += 1;
    }
    false
}


proof fn lemma_step_other(fs: Seq<Finding>, j: int, k: Seq<char>)
    requires
        0 <= j < fs.len(),
        fs[j].fingerprint@ != k,
    ensures
        reported(fs.take(j + 1), k) == reported(fs.take(j), k),
        last_with(fs.take(j + 1), k) == last_with(fs.take(j), k),
        reported(fs.take(j), k) ==> first_with(fs.take(j + 1), k) == first_with(fs.take(j), k),
{
    lemma_reported_push(fs, j, k);
}

proof fn lemma_step_same(fs: Seq<Finding>, j: int)
    requires
        0 <= j < fs.len(),
    ensures
        reported(fs.take(j + 1), fs[j].fingerprint@),
        last_with(fs.take(j + 1), fs[j].fingerprint@) == fs[j],
        reported(fs.take(j), fs[j].fingerprint@) ==> first_with(fs.take(j + 1), fs[j].fingerprint@)
            == first_with(fs.take(j), fs[j].fingerprint@),
        !reported(fs.take(j), fs[j].fingerprint@) ==> first_with(fs.take(j + 1), fs[j].fingerprint@)
            == fs[j],
{
    lemma_reported_push(fs, j, fs[j].fingerprint@);
}

/// Each entry of `v` after the findings `fs` were applied: reported
/// entries are seen (`origin` marks those that opened), the others are as
/// before.
pub open spec fn applied_entries(
    prior: Seq<TrackedFinding>,
    fs: Seq<Finding>,
    now: Seq<char>,
    v: Seq<TrackedFinding>,
    origin: Seq<bool>,
) -> bool {
    forall|i: int|
        0 <= i < v.len() ==> if reported(fs, (#[trigger] v[i]).fingerprint@) {
            seen_entry(prior, fs, now, v[i]) && origin[i] == opens(prior, fs, v[i].fingerprint@)
        } else {
            has_key(prior, v[i].fingerprint@) && v[i] == entry_for(prior, v[i].fingerprint@) && !origin[i]
        }
}

/// The state after the findings `fs` (a prefix of the run's findings) were
/// applied.
#[verifier::opaque]
pub open spec fn applied(
    prior: Seq<TrackedFinding>,
    fs: Seq<Finding>,
    now: Seq<char>,
    v: Seq<TrackedFinding>,
    origin: Seq<bool>,
) -> bool {
    &&& keys_unique(v)
    &&& v.len() == origin.len()
    &&& forall|k: Seq<char>| has_key(v, k) <==> has_key(prior, k) || reported(fs, k)
    &&& applied_entries(prior, fs, now, v, origin)
}

proof fn lemma_applied_parts(
    prior: Seq<TrackedFinding>,
    fs: Seq<Finding>,
    now: Seq<char>,
    v: Seq<TrackedFinding>,
    origin: Seq<bool>,
)
    requires
        applied(prior, fs, now, v, origin),
    ensures
        keys_unique(v),
        v.len() == origin.len(),
        forall|k: Seq<char>| has_key(v, k) <==> has_key(prior, k) || reported(fs, k),
        applied_entries(prior, fs, now, v, origin),
{
    reveal(applied);
}

/// Applies one finding to the state.
fn apply_finding(
    v: &mut Vec<TrackedFinding>,
    origin: &mut Vec<bool>,
    fs: &Vec<Finding>,
    j: usize,
    now: &str,
    Ghost(prior): Ghost<Seq<TrackedFinding>>,
)
    requires
        j < fs@.len(),
        keys_unique(prior),
        applied(prior, fs@.take(j as int), now@, old(v)@, old(origin)@),
    ensures
        applied(prior, fs@.take(j + 1), now@, final(v)@, final(origin)@),
{
    proof {
        reveal(applied);
    }
    let f = &fs[j];
    let ghost fj = fs@.take(j as int);
    let ghost fj1 = fs@.take(j + 1);
    let ghost k = f.fingerprint@;
    let ghost ov = v@;
    let ghost oo = origin@;
    proof {
        lemma_step_same(fs@, j as int);
    }
    match find_tracked(v, f.fingerprint.as_str()) {
        Some(i) => {
            let t = v.remove(i);
            let was_resolved = t.status == TrackedStatus::Resolved;
            let t2 = TrackedFinding {
                fingerprint: t.fingerprint,
                rule_id: t.rule_id,
                title: t.title,
                severity: t.severity,
                file: t.file,
                line: f.line,
                status: if was_resolved {
                    TrackedStatus::Open
                } else {
                    t.status
                },
                first_seen: t.first_seen,
                last_seen: to_owned_string(now),
                resolved_at: if was_resolved {
                    None
                } else {
                    t.resolved_at
                },
                note: t.note,
            };
            v.insert(i, t2);
            if was_resolved {
                origin.set(i, true);
            }
            proof {
                assert(v@ =~= ov.update(i as int, t2));
                let t0 = ov[i as int];
                if !reported(fj, k) {
                    assert(has_key(prior, k) && t0 == entry_for(prior, k) && !oo[i as int]);
                }
                assert forall|q: int| 0 <= q < v@.len() implies if reported(fj1, (#[trigger] v@[q]).fingerprint@) {
                    seen_entry(prior, fj1, now@, v@[q]) && origin@[q] == opens(prior, fj1, v@[q].fingerprint@)
                } else {
                    has_key(prior, v@[q].fingerprint@) && v@[q] == entry_for(prior, v@[q].fingerprint@) && !origin@[q]
                } by {
                    if q != i {
                        assert(v@[q] == ov[q]);
                        if q < i {
                            assert(ov[q].fingerprint@ != ov[i as int].fingerprint@);
                        } else {
                            assert(ov[i as int].fingerprint@ != ov[q].fingerprint@);
                        }
                        lemma_step_other(fs@, j as int, ov[q].fingerprint@);
                    }
                }
                assert forall|a: int, b: int| 0 <= a < b < v@.len() implies (#[trigger] v@[a]).fingerprint@
                    != (#[trigger] v@[b]).fingerprint@ by {
                    assert(ov[a].fingerprint@ != ov[b].fingerprint@);
                }
                assert forall|kk: Seq<char>| has_key(v@, kk) <==> has_key(prior, kk) || reported(fj1, kk) by {
                    lemma_reported_push(fs@, j as int, kk);
                    if has_key(ov, kk) {
                        let q = choose|q: int| 0 <= q < ov.len() && (#[trigger] ov[q]).fingerprint@ == kk;
                        assert(v@[q].fingerprint@ == kk);
                    }
                    if has_key(v@, kk) {
                        let q = choose|q: int| 0 <= q < v@.len() && (#[trigger] v@[q]).fingerprint@ == kk;
                        assert(ov[q].fingerprint@ == kk);
                    }
                }
            }
        },
        None => {
            let t2 = TrackedFinding {
                fingerprint: to_owned_string(f.fingerprint.as_str()),
                rule_id: to_owned_string(f.rule_id.as_str()),
                title: to_owned_string(f.title.as_str()),
                severity: f.severity,
                file: to_owned_string(f.file.as_str()),
                line: f.line,
                status: TrackedStatus::Open,
                first_seen: to_owned_string(now),
                last_seen: to_owned_string(now),
                resolved_at: None,
                note: None,
            };
            v.push(t2);
            origin.push(true);
            proof {
                assert(!has_key(ov, k));
                assert(!has_key(prior, k) && !reported(fj, k));
                let n = ov.len() as int;
                assert forall|q: int| 0 <= q < v@.len() implies if reported(fj1, (#[trigger] v@[q]).fingerprint@) {
                    seen_entry(prior, fj1, now@, v@[q]) && origin@[q] == opens(prior, fj1, v@[q].fingerprint@)
                } else {
                    has_key(prior, v@[q].fingerprint@) && v@[q] == entry_for(prior, v@[q].fingerprint@) && !origin@[q]
                } by {
                    if q < n {
                        assert(v@[q] == ov[q]);
                        assert(ov[q].fingerprint@ != k);
                        lemma_step_other(fs@, j as int, ov[q].fingerprint@);
                    }
                }
                assert forall|a: int, b: int| 0 <= a < b < v@.len() implies (#[trigger] v@[a]).fingerprint@
                    != (#[trigger] v@[b]).fingerprint@ by {
                    if b == n {
                        assert(ov[a].fingerprint@ != k);
                    } else {
                        assert(ov[a].fingerprint@ != ov[b].fingerprint@);
                    }
                }
                assert forall|kk: Seq<char>| has_key(v@, kk) <==> has_key(prior, kk) || reported(fj1, kk) by {
                    lemma_reported_push(fs@, j as int, kk);
                    if has_key(ov, kk) {
                        let q = choose|q: int| 0 <= q < ov.len() && (#[trigger] ov[q]).fingerprint@ == kk;
                        assert(v@[q].fingerprint@ == kk);
                    }
                    if has_key(v@, kk) {
                        let q = choose|q: int| 0 <= q < v@.len() && (#[trigger] v@[q]).fingerprint@ == kk;
                        if q < n {
                            assert(ov[q].fingerprint@ == kk);
                        }
                    }
                    if kk == k {
                        assert(v@[n].fingerprint@ == kk);
                    }
                }
            }
        },
    }
}


/// Resolves the entries that were open in an analyzed file and are no
/// longer reported; `resolved` marks them.
fn resolve_missing(
    v: &mut Vec<TrackedFinding>,
    fs: &Vec<Finding>,
    files: &Vec<String>,
    now: &str,
    Ghost(prior): Ghost<Seq<TrackedFinding>>,
    Ghost(origin): Ghost<Seq<bool>>,
) -> (resolved: Vec<bool>)
    requires
        keys_unique(prior),
        applied(prior, fs@, now@, old(v)@, origin),
    ensures
        final(v)@.len() == old(v)@.len(),
        resolved@.len() == old(v)@.len(),
        forall|i: int| 0 <= i < old(v)@.len() ==> (#[trigger] final(v)@[i]).fingerprint@ == old(v)@[i].fingerprint@,
        forall|i: int|
            0 <= i < final(v)@.len() ==> entry_after(prior, fs@, files@, now@, #[trigger] final(v)@[i]) && origin[i]
                == opens(prior, fs@, final(v)@[i].fingerprint@) && resolved@[i] == resolves(
                prior,
                fs@,
                files@,
                final(v)@[i].fingerprint@,
            ),
{
    proof {
        lemma_applied_parts(prior, fs@, now@, v@, origin);
    }
    let ghost w = v@;
    let mut resolved: Vec<bool> = Vec::new();
    let mut p: usize = 0;
    while p < v.len()
        invariant
            keys_unique(prior),
            w.len() == origin.len(),
            applied_entries(prior, fs@, now@, w, origin),
            v@.len() == w.len(),
            resolved@.len() == p,
            p <= v@.len(),
            forall|i: int| 0 <= i < w.len() ==> (#[trigger] v@[i]).fingerprint@ == w[i].fingerprint@,
            forall|i: int| p <= i < w.len() ==> #[trigger] v@[i] == w[i],
            forall|i: int|
                0 <= i < p ==> entry_after(prior, fs@, files@, now@, #[trigger] v@[i]) && origin[i] == opens(
                    prior,
                    fs@,
                    v@[i].fingerprint@,
                ) && resolved@[i] == resolves(prior, fs@, files@, v@[i].fingerprint@),
        decreases w.len() - p,
    {
        let ghost k = v@[p as int].fingerprint@;
        assert(v@[p as int] == w[p as int]);
        let cond = v[p].status == TrackedStatus::Open && listed(files, v[p].file.as_str()) && !is_reported(
            fs,
            v[p].fingerprint.as_str(),
        );
        let ghost vv = v@;
        if cond {
            let t = v.remove(p);
            let t2 = TrackedFinding {
                fingerprint: t.fingerprint,
                rule_id: t.rule_id,
                title: t.title,
                severity: t.severity,
                file: t.file,
                line: t.line,
                status: TrackedStatus::Resolved,
                first_seen: t.first_seen,
                last_seen: t.last_seen,
                resolved_at: Some(to_owned_string(now)),
                note: t.note,
            };
            v.insert(p, t2);
            assert(v@ =~= vv.update(p as int, t2));
        }
        resolved.push(cond);
        proof {
            assert(w[p as int].fingerprint@ == k);
            if reported(fs@, k) {
                assert(seen_entry(prior, fs@, now@, w[p as int]));
            } else {
                assert(has_key(prior, k) && w[p as int] == entry_for(prior, k));
            }
        }
        p += 1;
    }
    resolved
}

proof fn lemma_take_step(v: Seq<TrackedFinding>, i: int)
    requires
        0 <= i < v.len(),
    ensures
        v.take(i + 1).drop_last() == v.take(i),
        v.take(i + 1).last() == v[i],
{
    assert(v.take(i + 1).drop_last() =~= v.take(i));
}

/// Counts the entries that opened, resolved this run, and by status.
fn tally(
    v: &Vec<TrackedFinding>,
    origin: &Vec<bool>,
    resolved: &Vec<bool>,
    Ghost(prior): Ghost<Seq<TrackedFinding>>,
    fs: &Vec<Finding>,
    files: &Vec<String>,
) -> (p: RemediationProgress)
    requires
        origin@.len() == v@.len(),
        resolved@.len() == v@.len(),
        forall|x: int| 0 <= x < v@.len() ==> origin@[x] == opens(prior, fs@, (#[trigger] v@[x]).fingerprint@),
        forall|x: int|
            0 <= x < v@.len() ==> resolved@[x] == resolves(prior, fs@, files@, (#[trigger] v@[x]).fingerprint@),
    ensures
        p.new == opened_count(prior, fs@, v@),
        p.resolved_this_run == resolved_count(prior, fs@, files@, v@),
        p.open == status_count(v@, TrackedStatus::Open),
        p.accepted == status_count(v@, TrackedStatus::Accepted),
        p.total_resolved == status_count(v@, TrackedStatus::Resolved),
{
    let ghost fv = v@;
    let mut progress = RemediationProgress { new: 0, open: 0, resolved_this_run: 0, accepted: 0, total_resolved: 0 };
    let mut q: usize = 0;
    while q < v.len()
        invariant
            v@ == fv,
            q <= fv.len(),
            origin@.len() == fv.len(),
            resolved@.len() == fv.len(),
            forall|x: int| 0 <= x < fv.len() ==> origin@[x] == opens(prior, fs@, (#[trigger] fv[x]).fingerprint@),
            forall|x: int|
                0 <= x < fv.len() ==> resolved@[x] == resolves(prior, fs@, files@, (#[trigger] fv[x]).fingerprint@),
            progress.new == opened_count(prior, fs@, fv.take(q as int)),
            progress.resolved_this_run == resolved_count(prior, fs@, files@, fv.take(q as int)),
            progress.open == status_count(fv.take(q as int), TrackedStatus::Open),
            progress.accepted == status_count(fv.take(q as int), TrackedStatus::Accepted),
            progress.total_resolved == status_count(fv.take(q as int), TrackedStatus::Resolved),
            progress.new <= q,
            progress.resolved_this_run <= q,
            progress.open + progress.accepted + progress.total_resolved <= q,
        decreases fv.len() - q,
    {
        proof {
            lemma_take_step(fv, q as int);
        }
        if origin[q] {
            progress.new = progress.new + 1;
        }
        if resolved[q] {
            progress.resolved_this_run = progress.resolved_this_run + 1;
        }
        let st = v[q].status;
        if st == TrackedStatus::Open {
            progress.open = progress.open + 1;
        } else if st == TrackedStatus::Accepted {
            progress.accepted = progress.accepted + 1;
        } else {
            progress.total_resolved = progress.total_resolved + 1;
        }
        q += 1;
    }
    assert(fv.take(q as int) =~= fv);
    progress
}

/// `n` unset marks.
fn unmarked(n: usize) -> (r: Vec<bool>)
    ensures
        r@.len() == n,
        forall|q: int| 0 <= q < n ==> !(#[trigger] r@[q]),
{
    let mut r: Vec<bool> = Vec::new();
    let mut j: usize = 0;
    while j < n
        invariant
            j <= n,
            r@.len() == j,
            forall|q: int| 0 <= q < j ==> !(#[trigger] r@[q]),
        decreases n - j,
    {
        r.push(false);
        j += 1;
    }
    r
}

/// Before any finding is applied, the state is as it was.
proof fn lemma_nothing_applied(prior: Seq<TrackedFinding>, fs: Seq<Finding>, now: Seq<char>, origin: Seq<bool>)
    requires
        keys_unique(prior),
        origin.len() == prior.len(),
        forall|q: int| 0 <= q < prior.len() ==> !(#[trigger] origin[q]),
    ensures
        applied(prior, fs.take(0), now, prior, origin),
{
    let e = fs.take(0);
    assert(e =~= Seq::<Finding>::empty());
    lemma_nothing_reported(e);
    assert(applied_entries(prior, e, now, prior, origin)) by {
        assert forall|q: int| 0 <= q < prior.len() implies has_key(prior, (#[trigger] prior[q]).fingerprint@)
            && prior[q] == entry_for(prior, prior[q].fingerprint@) by {
            lemma_entry_for(prior, q);
        }
    }
    assert(forall|k: Seq<char>| has_key(prior, k) <==> has_key(prior, k) || reported(e, k));
    reveal(applied);
}

/// Nothing is reported by no findings.
proof fn lemma_nothing_reported(e: Seq<Finding>)
    requires
        e.len() == 0,
    ensures
        forall|k: Seq<char>| !reported(e, k),
{
}

/// Two states with the same fingerprints, index by index, have the same
/// keys.
proof fn lemma_same_keys(a: Seq<TrackedFinding>, b: Seq<TrackedFinding>)
    requires
        a.len() == b.len(),
        forall|i: int| 0 <= i < a.len() ==> (#[trigger] b[i]).fingerprint@ == a[i].fingerprint@,
    ensures
        keys_unique(a) ==> keys_unique(b),
        forall|k: Seq<char>| has_key(b, k) <==> has_key(a, k),
{
    assert forall|k: Seq<char>| has_key(b, k) <==> has_key(a, k) by {
        if has_key(b, k) {
            let q = choose|q: int| 0 <= q < b.len() && (#[trigger] b[q]).fingerprint@ == k;
            assert(a[q].fingerprint@ == k);
        }
        if has_key(a, k) {
            let q = choose|q: int| 0 <= q < a.len() && (#[trigger] a[q]).fingerprint@ == k;
            assert(b[q].fingerprint@ == k);
        }
    }
    if keys_unique(a) {
        assert forall|i: int, j: int| 0 <= i < j < b.len() implies (#[trigger] b[i]).fingerprint@
            != (#[trigger] b[j]).fingerprint@ by {
            assert(a[i].fingerprint@ != a[j].fingerprint@);
        }
    }
}

/// Reconciles the remediation state with the findings of a run over
/// `files` at `now`: reported findings are seen (new ones open, resolved
/// ones reopen), open findings of analyzed files that are no longer
/// reported resolve, everything else is kept; returns the progress.
pub fn reconcile(
    state: &mut Vec<TrackedFinding>,
    findings: &Vec<Finding>,
    files: &Vec<String>,
    now: &str,
) -> (p: RemediationProgress)
    requires
        keys_unique(old(state)@),
    ensures
        reconciled(old(state)@, findings@, files@, now@, final(state)@, p),
{
    let ghost prior = state@;
    let mut origin = unmarked(state.len());
    proof {
        lemma_nothing_applied(prior, findings@, now@, origin@);
    }
    let mut i: usize = 0;
    while i < findings.len()
        invariant
            keys_unique(prior),
            i <= findings@.len(),
            applied(prior, findings@.take(i as int), now@, state@, origin@),
        decreases findings@.len() - i,
    {
        apply_finding(state, &mut origin, findings, i, now, Ghost(prior));
        i += 1;
    }
    assert(findings@.take(i as int) =~= findings@);
    proof {
        lemma_applied_parts(prior, findings@, now@, state@, origin@);
    }
    let ghost og = origin@;
    let ghost og_state = state@;
    let resolved = resolve_missing(state, findings, files, now, Ghost(prior), Ghost(og));
    proof {
        lemma_same_keys(og_state, state@);
    }
    tally(state, &origin, &resolved, Ghost(prior), findings, files)
}


/// Fingerprints of `v` that start with `prefix`, counted.
pub open spec fn prefix_matches(v: Seq<TrackedFinding>, prefix: Seq<char>) -> nat
    decreases v.len(),
{
    if v.len() == 0 {
        0
    } else {
        prefix_matches(v.drop_last(), prefix) + if is_prefix(prefix, v.last().fingerprint@) {
            1nat
        } else {
            0nat
        }
    }
}

/// Picks the one tracked finding whose fingerprint starts with `prefix`:
/// its index, or an error when none or several match.
pub fn select_tracked(v: &Vec<TrackedFinding>, prefix: &str) -> (r: Result<usize, String>)
    ensures
        match r {
            Ok(i) => i < v@.len() && is_prefix(prefix@, v@[i as int].fingerprint@) && prefix_matches(v@, prefix@)
                == 1,
            Err(m) => (prefix_matches(v@, prefix@) == 0 && m@ == "no tracked finding matches '"@ + prefix@
                + "'"@) || (prefix_matches(v@, prefix@) > 1 && m@ == "'"@ + prefix@ + "' matches "@
                + decimal(prefix_matches(v@, prefix@)) + " findings; use a longer fingerprint"@),
        },
{
    let p = crate::text::chars_of(prefix);
    let mut count: usize = 0;
    let mut found: usize = 0;
    let mut i: usize = 0;
    while i < v.len()
        invariant
            p@ == prefix@,
            i <= v@.len(),
            count == prefix_matches(v@.take(i as int), prefix@),
            count <= i,
            count >= 1 ==> found < i && is_prefix(prefix@, v@[found as int].fingerprint@),
        decreases v@.len() - i,
    {
        assert(v@.take(i + 1).drop_last() =~= v@.take(i as int));
        let f = crate::text::chars_of(v[i].fingerprint.as_str());
        if crate::text::starts_with(&f, &p) {
            if count == 0 {
                found = i;
            }
            count += 1;
        }
        i += 1;
    }
    assert(v@.take(i as int) =~= v@);
    if count == 1 {
        Ok(found)
    } else if count == 0 {
        let mut m = to_owned_string("no tracked finding matches '");
        push_str(&mut m, prefix);
        push_str(&mut m, "'");
        Err(m)
    } else {
        let mut m = to_owned_string("'");
        push_str(&mut m, prefix);
        push_str(&mut m, "' matches ");
        push_str(&mut m, decimal_string(count as u64).as_str());
        push_str(&mut m, " findings; use a longer fingerprint");
        Err(m)
    }
}

/// A copy of a tracked finding.
fn copy_tracked(t: &TrackedFinding) -> (r: TrackedFinding)
    ensures
        r == *t,
{
    TrackedFinding {
        fingerprint: t.fingerprint.clone(),
        rule_id: t.rule_id.clone(),
        title: t.title.clone(),
        severity: t.severity,
        file: t.file.clone(),
        line: t.line,
        status: t.status,
        first_seen: t.first_seen.clone(),
        last_seen: t.last_seen.clone(),
        resolved_at: match &t.resolved_at {
            Some(x) => Some(x.clone()),
            None => None,
        },
        note: match &t.note {
            Some(x) => Some(x.clone()),
            None => None,
        },
    }
}

/// Sets the status of the one tracked finding whose fingerprint starts with
/// `prefix` (accepting a risk, or reopening), stamping `now` when it is
/// resolved and replacing the note when one is given; returns the updated
/// entry. Fails, changing nothing, when no finding or several match.
pub fn set_tracked_status(
    v: &mut Vec<TrackedFinding>,
    prefix: &str,
    status: TrackedStatus,
    note: Option<String>,
    now: &str,
) -> (r: Result<TrackedFinding, String>)
    ensures
        match r {
            Ok(t) => prefix_matches(old(v)@, prefix@) == 1 && exists|i: int|
                0 <= i < old(v)@.len() && is_prefix(prefix@, old(v)@[i].fingerprint@) && final(v)@ == old(
                    v,
                )@.update(i, t) && {
                    let o = old(v)@[i];
                    &&& t.fingerprint == o.fingerprint
                    &&& t.rule_id == o.rule_id
                    &&& t.title == o.title
                    &&& t.severity == o.severity
                    &&& t.file == o.file
                    &&& t.line == o.line
                    &&& t.first_seen == o.first_seen
                    &&& t.last_seen == o.last_seen
                    &&& t.status == status
                    &&& (if status == TrackedStatus::Resolved {
                        t.resolved_at matches Some(at) && at@ == now@
                    } else {
                        t.resolved_at is None
                    })
                    &&& t.note == (if note is Some {
                        note
                    } else {
                        o.note
                    })
                },
            Err(_) => prefix_matches(old(v)@, prefix@) != 1 && final(v)@ == old(v)@,
        },
{
    let ghost orig = v@;
    let i = match select_tracked(v, prefix) {
        Ok(i) => i,
        Err(m) => return Err(m),
    };
    let t = v.remove(i);
    let resolved = status == TrackedStatus::Resolved;
    let keep_note = note.is_none();
    let t2 = TrackedFinding {
        fingerprint: t.fingerprint,
        rule_id: t.rule_id,
        title: t.title,
        severity: t.severity,
        file: t.file,
        line: t.line,
        status,
        first_seen: t.first_seen,
        last_seen: t.last_seen,
        resolved_at: if resolved {
            Some(to_owned_string(now))
        } else {
            None
        },
        note: if keep_note {
            t.note
        } else {
            note
        },
    };
    let out = copy_tracked(&t2);
    v.insert(i, t2);
    assert(v@ =~= orig.update(i as int, out));
    assert(is_prefix(prefix@, orig[i as int].fingerprint@));
    Ok(out)
}

} // verus!
