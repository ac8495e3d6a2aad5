//! Performance regression gates: metric and run verdicts, the `--fail-on`
//! policy, report formats and the baseline store location.

use vstd::prelude::*;
use crate::text::{chars_of, eq_str, push_str, string_of, to_lowercase, to_owned_string, trim, trim_str, unicode_lowercase};

verus! {

/// Current on-disk schema version for baselines.
pub const BASELINE_SCHEMA_VERSION: u32 = 1;

/// Default project-local directory for baselines.
pub const DEFAULT_BASELINE_DIR: &'static str = ".starforge/perf-baselines";

/// Keeps baselines as `<name>.json` plus an append-only history per name.
#[derive(Debug, Clone)]
pub struct BaselineStore {
    dir: String,
}

impl BaselineStore {
    /// The directory the baselines are kept in.
    pub closed spec fn dir_view(&self) -> Seq<char> {
        self.dir@
    }

    pub fn new(dir: String) -> (r: Self)
        ensures
            r.dir_view() == dir@,
    {
        BaselineStore { dir }
    }

    pub fn dir(&self) -> (r: &str)
        ensures
            r@ == self.dir_view(),
    {
        self.dir.as_str()
    }
}

/// Outcome of comparing one metric with its baseline.
#[derive(Debug, Clone, Copy, PartialEq, Eq, Structural)]
pub enum MetricStatus {
    Regressed,
    Warning,
    Missing,
    New,
    Unchanged,
    Improved,
}

impl MetricStatus {
    pub fn label(self) -> (r: &'static str)
        ensures
            r == match self {
                MetricStatus::Regressed => "regressed",
                MetricStatus::Warning => "warning",
                MetricStatus::Missing => "missing",
                MetricStatus::New => "new",
                MetricStatus::Unchanged => "unchanged",
                MetricStatus::Improved => "improved",
            },
    {
        match self {
            MetricStatus::Regressed => "regressed",
            MetricStatus::Warning => "warning",
            MetricStatus::Missing => "missing",
            MetricStatus::New => "new",
            MetricStatus::Unchanged => "unchanged",
            MetricStatus::Improved => "improved",
        }
    }
}

/// Overall outcome of a regression check.
#[derive(Debug, Clone, Copy, PartialEq, Eq, Structural)]
pub enum Verdict {
    Pass,
    Warn,
    Fail,
}

impl Verdict {
    pub fn label(self) -> (r: &'static str)
        ensures
            r == match self {
                Verdict::Pass => "PASS",
                Verdict::Warn => "WARN",
                Verdict::Fail => "FAIL",
            },
    {
        match self {
            Verdict::Pass => "PASS",
            Verdict::Warn => "WARN",
            Verdict::Fail => "FAIL",
        }
    }
}

/// Condition that makes a regression check exit non-zero.
#[derive(Debug, Clone, Copy, PartialEq, Eq, Structural)]
pub enum FailOn {
    /// Any regression (default).
    Regression,
    /// Regressions and warnings.
    Warning,
    /// Report only; never fail.
    Never,
}

/// The word a flag value reduces to: trimmed, then lower-cased.
pub open spec fn flag_word(value: Seq<char>) -> Seq<char> {
    unicode_lowercase(trim(value))
}

/// The `--fail-on` policy a word names.
pub open spec fn fail_on_spec(w: Seq<char>) -> Option<FailOn> {
    if w == "regression"@ {
        Some(FailOn::Regression)
    } else if w == "warning"@ || w == "warn"@ {
        Some(FailOn::Warning)
    } else if w == "never"@ {
        Some(FailOn::Never)
    } else {
        None
    }
}

/// Lower-cased, trimmed characters of a flag value.
fn flag_chars(value: &str) -> (r: Vec<char>)
    ensures
        r@ == flag_word(value@),
{
    let t = string_of(&trim_str(value));
    chars_of(to_lowercase(t.as_str()).as_str())
}

impl FailOn {
    /// Parses `regression`, `warning` (or `warn`) or `never`, ignoring case
    /// and surrounding blanks.
    pub fn parse(value: &str) -> (r: Result<FailOn, String>)
        ensures
            match fail_on_spec(flag_word(value@)) {
                Some(f) => r == Ok::<FailOn, String>(f),
                None => r matches Err(m) && m@ == "unsupported --fail-on '"@ + flag_word(value@)
                    + "'; use regression, warning, or never"@,
            },
    {
        let w = flag_chars(value);
        if eq_str(&w, "regression") {
            Ok(FailOn::Regression)
        } else if eq_str(&w, "warning") || eq_str(&w, "warn") {
            Ok(FailOn::Warning)
        } else if eq_str(&w, "never") {
            Ok(FailOn::Never)
        } else {
            let mut m = to_owned_string("unsupported --fail-on '");
            push_str(&mut m, string_of(&w).as_str());
            push_str(&mut m, "'; use regression, warning, or never");
            Err(m)
        }
    }

    /// Whether a run with `verdict` fails under this policy.
    pub fn should_fail(self, verdict: Verdict) -> (r: bool)
        ensures
            r == fails_under(self, verdict),
    {
        match self {
            FailOn::Regression => verdict == Verdict::Fail,
            FailOn::Warning => verdict != Verdict::Pass,
            FailOn::Never => false,
        }
    }
}

/// A run with `verdict` fails under policy `p`.
pub open spec fn fails_under(p: FailOn, verdict: Verdict) -> bool {
    match p {
        FailOn::Regression => verdict == Verdict::Fail,
        FailOn::Warning => verdict != Verdict::Pass,
        FailOn::Never => false,
    }
}

/// The policies are ordered by strictness: whatever fails under
/// `Regression` fails under `Warning`, nothing fails under `Never`, and a
/// passing run fails under none.
pub proof fn law_fail_on_is_monotone(verdict: Verdict)
    ensures
        fails_under(FailOn::Regression, verdict) ==> fails_under(FailOn::Warning, verdict),
        !fails_under(FailOn::Never, verdict),
        verdict == Verdict::Pass ==> !fails_under(FailOn::Warning, verdict) && !fails_under(
            FailOn::Regression,
            verdict,
        ),
{
}

/// An alert raised by a regression check.
#[derive(Debug, Clone, PartialEq, Eq)]
pub struct PerfAlert {
    pub severity: String,
    pub metric: String,
    pub message: String,
}

/// Number of metrics per status.
#[derive(Debug, Clone, PartialEq, Eq)]
pub struct ComparisonSummary {
    pub regressed: usize,
    pub warnings: usize,
    pub improved: usize,
    pub unchanged: usize,
    pub new: usize,
    pub missing: usize,
}

impl Default for ComparisonSummary {
    fn default() -> (r: Self)
        ensures
            r.regressed == 0 && r.warnings == 0 && r.improved == 0 && r.unchanged == 0 && r.new == 0
                && r.missing == 0,
    {
        ComparisonSummary { regressed: 0, warnings: 0, improved: 0, unchanged: 0, new: 0, missing: 0 }
    }
}

/// How many of `s` are `st`.
pub open spec fn status_count(s: Seq<MetricStatus>, st: MetricStatus) -> nat
    decreases s.len(),
{
    if s.len() == 0 {
        0
    } else {
        status_count(s.drop_last(), st) + if s.last() == st {
            1nat
        } else {
            0nat
        }
    }
}

proof fn lemma_status_count_bound(s: Seq<MetricStatus>, st: MetricStatus)
    ensures
        status_count(s, st) <= s.len(),
    decreases s.len(),
{
    if s.len() > 0 {
        lemma_status_count_bound(s.drop_last(), st);
    }
}

/// The verdict of a run: `Fail` on any regression, else `Warn` on any
/// warning or missing metric, else `Pass`.
pub open spec fn verdict_of(s: Seq<MetricStatus>) -> Verdict {
    if status_count(s, MetricStatus::Regressed) > 0 {
        Verdict::Fail
    } else if status_count(s, MetricStatus::Warning) > 0 || status_count(s, MetricStatus::Missing) > 0 {
        Verdict::Warn
    } else {
        Verdict::Pass
    }
}

/// The number of metrics per status, and the verdict they give.
pub fn summarize(statuses: &[MetricStatus]) -> (r: (ComparisonSummary, Verdict))
    ensures
        r.0.regressed == status_count(statuses@, MetricStatus::Regressed),
        r.0.warnings == status_count(statuses@, MetricStatus::Warning),
        r.0.missing == status_count(statuses@, MetricStatus::Missing),
        r.0.new == status_count(statuses@, MetricStatus::New),
        r.0.unchanged == status_count(statuses@, MetricStatus::Unchanged),
        r.0.improved == status_count(statuses@, MetricStatus::Improved),
        r.1 == verdict_of(statuses@),
{
    let mut sum = ComparisonSummary::default();
    let mut i: usize = 0;
    assert(statuses@.take(0) =~= Seq::<MetricStatus>::empty());
    while i < statuses.len()
        invariant
            i <= statuses@.len(),
            sum.regressed == status_count(statuses@.take(i as int), MetricStatus::Regressed),
            sum.warnings == status_count(statuses@.take(i as int), MetricStatus::Warning),
            sum.missing == status_count(statuses@.take(i as int), MetricStatus::Missing),
            sum.new == status_count(statuses@.take(i as int), MetricStatus::New),
            sum.unchanged == status_count(statuses@.take(i as int), MetricStatus::Unchanged),
            sum.improved == status_count(statuses@.take(i as int), MetricStatus::Improved),
        decreases statuses@.len() - i,
    {
        proof {
            let t = statuses@.take(i as int);
            lemma_status_count_bound(t, MetricStatus::Regressed);
            lemma_status_count_bound(t, MetricStatus::Warning);
            lemma_status_count_bound(t, MetricStatus::Missing);
            lemma_status_count_bound(t, MetricStatus::New);
            lemma_status_count_bound(t, MetricStatus::Unchanged);
            lemma_status_count_bound(t, MetricStatus::Improved);
            assert(statuses@.take(i + 1).drop_last() =~= t);
        }
        match statuses[i] {
            MetricStatus::Regressed => sum.regressed = sum.regressed + 1,
            MetricStatus::Warning => sum.warnings = sum.warnings + 1,
            MetricStatus::Missing => sum.missing = sum.missing + 1,
            MetricStatus::New => sum.new = sum.new + 1,
            MetricStatus::Unchanged => sum.unchanged = sum.unchanged + 1,
            MetricStatus::Improved => sum.improved = sum.improved + 1,
        }
        i += 1;
    }
    assert(statuses@.take(i as int) =~= statuses@);
    let verdict = if sum.regressed > 0 {
        Verdict::Fail
    } else if sum.warnings > 0 || sum.missing > 0 {
        Verdict::Warn
    } else {
        Verdict::Pass
    };
    (sum, verdict)
}

/// A character a baseline name may hold: an ASCII letter or digit, `-`,
/// `_` or `.`.
pub open spec fn baseline_name_char(c: char) -> bool {
    ('a' <= c && c <= 'z') || ('A' <= c && c <= 'Z') || ('0' <= c && c <= '9') || c == '-' || c
        == '_' || c == '.'
}

/// A baseline name is non-empty, holds only allowed characters, and does not
/// start with `.`.
pub open spec fn valid_baseline_name(n: Seq<char>) -> bool {
    &&& n.len() > 0
    &&& forall|i: int| 0 <= i < n.len() ==> baseline_name_char(#[trigger] n[i])
    &&& n[0] != '.'
}

/// Checks a baseline name, which becomes a file name in the store.
pub fn validate_baseline_name(name: &str) -> (r: Result<(), String>)
    ensures
        (r is Ok) == valid_baseline_name(name@),
        r matches Err(m) ==> m@ == "invalid baseline name '"@ + name@
            + "'; use letters, digits, '-', '_' or '.'"@,
{
    let cs = chars_of(name);
    let mut ok = cs.len() > 0 && cs[0] != '.';
    let mut i: usize = 0;
    while i < cs.len()
        invariant
            i <= cs@.len(),
            cs@ == name@,
            ok == (cs@.len() > 0 && cs@[0] != '.' && forall|j: int|
                0 <= j < i ==> baseline_name_char(#[trigger] cs@[j])),
        decreases cs@.len() - i,
    {
        let c = cs[i];
        let allowed = ('a' <= c && c <= 'z') || ('A' <= c && c <= 'Z') || ('0' <= c && c <= '9')
            || c == '-' || c == '_' || c == '.';
        if !allowed {
            ok = false;
        }
        i += 1;
    }
    if ok {
        Ok(())
    } else {
        let mut m = to_owned_string("invalid baseline name '");
        push_str(&mut m, name);
        push_str(&mut m, "'; use letters, digits, '-', '_' or '.'");
        Err(m)
    }
}

/// Output format of a regression report.
#[derive(Debug, Clone, Copy, PartialEq, Eq, Structural)]
pub enum ReportFormat {
    Text,
    Markdown,
    Json,
}

/// The report format a word names.
pub open spec fn report_format_spec(w: Seq<char>) -> Option<ReportFormat> {
    if w == "text"@ {
        Some(ReportFormat::Text)
    } else if w == "markdown"@ || w == "md"@ {
        Some(ReportFormat::Markdown)
    } else if w == "json"@ {
        Some(ReportFormat::Json)
    } else {
        None
    }
}

impl ReportFormat {
    /// Parses `text`, `markdown` (or `md`) or `json`, ignoring case and
    /// surrounding blanks.
    pub fn parse(value: &str) -> (r: Result<ReportFormat, String>)
        ensures
            match report_format_spec(flag_word(value@)) {
                Some(f) => r == Ok::<ReportFormat, String>(f),
                None => r matches Err(m) && m@ == "unsupported report format '"@ + flag_word(value@)
                    + "'; use text, markdown, or json"@,
            },
    {
        let w = flag_chars(value);
        if eq_str(&w, "text") {
            Ok(ReportFormat::Text)
        } else if eq_str(&w, "markdown") || eq_str(&w, "md") {
            Ok(ReportFormat::Markdown)
        } else if eq_str(&w, "json") {
            Ok(ReportFormat::Json)
        } else {
            let mut m = to_owned_string("unsupported report format '");
            push_str(&mut m, string_of(&w).as_str());
            push_str(&mut m, "'; use text, markdown, or json");
            Err(m)
        }
    }
}

} // verus!
