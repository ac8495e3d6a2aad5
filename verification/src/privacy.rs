//! Strict privacy mode: parsing the toggle, deciding whether outbound
//! connections are allowed, redacting personal data from text, and assessing
//! the privacy impact of a payload.

use vstd::prelude::*;
use crate::text::{
    ascii_lower_seq, ascii_lowercase, chars_of, contains_seq, lemma_absent_by_first,
    lemma_replace_absent, lemma_replace_leaves_absent, contains_str, decimal,
    decimal_string, eq_str, join, join_spec, push_str, replace_all, replace_spec, str_eq,
    string_of, string_views, to_owned_string, trim, trim_str,
};

verus! {

/// Environment variable that forces strict privacy mode, independent of the
/// persisted configuration.
pub const PRIVACY_MODE_ENV: &'static str = "STARFORGE_PRIVACY_MODE";

/// The toggle words that turn privacy mode off (compared after trimming and
/// ASCII lower-casing).
pub open spec fn is_off_word(t: Seq<char>) -> bool {
    t == "0"@ || t == "false"@ || t == "off"@ || t == "disabled"@ || t == "no"@
}

/// Meaning of a toggle value: blank means off, an off word means off, and
/// anything else, recognised or not, means on (a malformed flag errs toward
/// privacy).
pub open spec fn privacy_toggle(value: Seq<char>) -> bool {
    let t = trim(value);
    if t.len() == 0 {
        false
    } else {
        !is_off_word(ascii_lower_seq(t))
    }
}

/// Parses a toggle-style value. It always returns `Some`: unknown values are
/// treated as enabled.
pub fn parse_privacy_env_value(value: &str) -> (r: Option<bool>)
    ensures
        r == Some(privacy_toggle(value@)),
{
    let trimmed = trim_str(value);
    if trimmed.len() == 0 {
        return Some(false);
    }
    let lower = ascii_lowercase(&trimmed);
    let off = eq_str(&lower, "0") || eq_str(&lower, "false") || eq_str(&lower, "off")
        || eq_str(&lower, "disabled") || eq_str(&lower, "no");
    Some(!off)
}

/// Privacy mode from the persisted configuration alone: off unless set.
pub fn privacy_mode_from_config(cfg_privacy: Option<bool>) -> (r: bool)
    ensures
        r == (cfg_privacy == Some(true)),
{
    match cfg_privacy {
        Some(b) => b,
        None => false,
    }
}

/// Whether privacy mode is active, given the environment variable (if set)
/// and the configuration (if it could be loaded). The variable wins over the
/// configuration; without either the mode is off.
pub fn privacy_mode_from_sources(env_value: Option<&str>, config: Option<Option<bool>>) -> (r: bool)
    ensures
        r == match env_value {
            Some(v) => privacy_toggle(v@),
            None => match config {
                Some(c) => c == Some(true),
                None => false,
            },
        },
{
    match env_value {
        Some(v) => match parse_privacy_env_value(v) {
            Some(b) => b,
            None => true,
        },
        None => match config {
            Some(c) => privacy_mode_from_config(c),
            None => false,
        },
    }
}

/// The refusal shown when strict privacy mode blocks an outbound connection.
pub open spec fn blocked_message(what: Seq<char>) -> Seq<char> {
    "Blocked by strict privacy mode: "@ + what
        + " would contact an external network endpoint. Set STARFORGE_PRIVACY_MODE=0 or run `starforge privacy mode off` to allow outbound connections."@
}

/// Guards an outbound-connection site: refused while privacy mode is on.
pub fn require_online(what: &str, privacy_enabled: bool) -> (r: Result<(), String>)
    ensures
        privacy_enabled <==> r is Err,
        r matches Err(m) ==> m@ == blocked_message(what@),
{
    if privacy_enabled {
        let mut m = to_owned_string("Blocked by strict privacy mode: ");
        push_str(&mut m, what);
        push_str(
            &mut m,
            " would contact an external network endpoint. Set STARFORGE_PRIVACY_MODE=0 or run `starforge privacy mode off` to allow outbound connections.",
        );
        return Err(m);
    }
    Ok(())
}

/// The redactions, applied in this order.
pub open spec fn anonymize_spec(input: Seq<char>) -> Seq<char> {
    let a = replace_spec(input, "@"@, " [REDACTED_EMAIL] "@);
    let b = replace_spec(a, "+1-555-0100"@, "[REDACTED_PHONE]"@);
    let c = replace_spec(b, "alice"@, "[REDACTED_NAME]"@);
    replace_spec(c, "user"@, "[REDACTED_USER]"@)
}

/// Redacts e-mail markers, the sample phone number and the sample names.
pub fn anonymize_text(input: &str) -> (r: String)
    ensures
        r@ == anonymize_spec(input@),
{
    proof {
        reveal_strlit("@");
        reveal_strlit("+1-555-0100");
        reveal_strlit("alice");
        reveal_strlit("user");
    }
    let s = chars_of(input);
    let a = replace_all(&s, &chars_of("@"), &chars_of(" [REDACTED_EMAIL] "));
    let b = replace_all(&a, &chars_of("+1-555-0100"), &chars_of("[REDACTED_PHONE]"));
    let c = replace_all(&b, &chars_of("alice"), &chars_of("[REDACTED_NAME]"));
    let d = replace_all(&c, &chars_of("user"), &chars_of("[REDACTED_USER]"));
    string_of(&d)
}

/// One redaction pass leaves no marker, phone number or name that the
/// redaction looks for ("@", "+1-555-0100", "alice", "user"), and so
/// redacting twice gives what redacting once gave.
pub proof fn law_anonymize_is_idempotent(input: Seq<char>)
    ensures
        !contains_seq(anonymize_spec(input), "@"@),
        !contains_seq(anonymize_spec(input), "+1-555-0100"@),
        !contains_seq(anonymize_spec(input), "alice"@),
        !contains_seq(anonymize_spec(input), "user"@),
        anonymize_spec(anonymize_spec(input)) == anonymize_spec(input),
{
    reveal_strlit("@");
    reveal_strlit("+1-555-0100");
    reveal_strlit("alice");
    reveal_strlit("user");
    reveal_strlit(" [REDACTED_EMAIL] ");
    reveal_strlit("[REDACTED_PHONE]");
    reveal_strlit("[REDACTED_NAME]");
    reveal_strlit("[REDACTED_USER]");
    let (p1, t1) = ("@"@, " [REDACTED_EMAIL] "@);
    let (p2, t2) = ("+1-555-0100"@, "[REDACTED_PHONE]"@);
    let (p3, t3) = ("alice"@, "[REDACTED_NAME]"@);
    let (p4, t4) = ("user"@, "[REDACTED_USER]"@);
    assert(!p1.contains(' ') && !p1.contains('[') && !p1.contains(']'));
    assert(!p2.contains('[') && !p2.contains(']'));
    assert(!p3.contains('[') && !p3.contains(']'));
    assert(!p4.contains('[') && !p4.contains(']'));
    assert(t1[0] == ' ' && t1.last() == ' ');
    assert(t2[0] == '[' && t2.last() == ']');
    assert(t3[0] == '[' && t3.last() == ']');
    assert(t4[0] == '[' && t4.last() == ']');
    assert(!t1.contains(p1[0]));
    assert(!t2.contains(p1[0]) && !t2.contains(p2[0]));
    assert(!t3.contains(p1[0]) && !t3.contains(p2[0]) && !t3.contains(p3[0]));
    assert(!t4.contains(p1[0]) && !t4.contains(p2[0]) && !t4.contains(p3[0]) && !t4.contains(p4[0]));
    lemma_absent_by_first(t1, p1);
    lemma_absent_by_first(t2, p1);
    lemma_absent_by_first(t2, p2);
    lemma_absent_by_first(t3, p1);
    lemma_absent_by_first(t3, p2);
    lemma_absent_by_first(t3, p3);
    lemma_absent_by_first(t4, p1);
    lemma_absent_by_first(t4, p2);
    lemma_absent_by_first(t4, p3);
    lemma_absent_by_first(t4, p4);
    let a = replace_spec(input, p1, t1);
    let b = replace_spec(a, p2, t2);
    let c = replace_spec(b, p3, t3);
    let y = replace_spec(c, p4, t4);
    lemma_replace_leaves_absent(input, p1, t1, p1);
    lemma_replace_leaves_absent(a, p2, t2, p1);
    lemma_replace_leaves_absent(a, p2, t2, p2);
    lemma_replace_leaves_absent(b, p3, t3, p1);
    lemma_replace_leaves_absent(b, p3, t3, p2);
    lemma_replace_leaves_absent(b, p3, t3, p3);
    lemma_replace_leaves_absent(c, p4, t4, p1);
    lemma_replace_leaves_absent(c, p4, t4, p2);
    lemma_replace_leaves_absent(c, p4, t4, p3);
    lemma_replace_leaves_absent(c, p4, t4, p4);
    lemma_replace_absent(y, p1, t1);
    lemma_replace_absent(y, p2, t2);
    lemma_replace_absent(y, p3, t3);
    lemma_replace_absent(y, p4, t4);
}

// ── Privacy impact ────────────────────────────────────────────────────────────

/// A top-level field of a JSON payload as plain values: its key, and its text
/// when the value is a JSON string.
#[derive(Debug, Clone)]
pub struct PayloadField {
    pub key: String,
    pub text: Option<String>,
}

/// A field as plain values.
pub open spec fn field_view(f: PayloadField) -> (Seq<char>, Option<Seq<char>>) {
    (
        f.key@,
        match f.text {
            Some(t) => Some(t@),
            None => None,
        },
    )
}

/// Fields as plain values.
pub open spec fn field_views(fs: Seq<PayloadField>) -> Seq<(Seq<char>, Option<Seq<char>>)> {
    fs.map_values(|f: PayloadField| field_view(f))
}

/// Keys that name personal data.
pub open spec fn is_pii_key(k: Seq<char>) -> bool {
    contains_seq(k, "email"@) || contains_seq(k, "phone"@) || contains_seq(k, "name"@)
}

/// String values that look like an e-mail address.
pub open spec fn looks_like_email(t: Option<Seq<char>>) -> bool {
    match t {
        Some(s) => contains_seq(s, "@"@) || contains_seq(s, "example.com"@),
        None => false,
    }
}

/// Risk one field adds: 20 for a personal-data key, 10 for an e-mail-like value.
pub open spec fn field_risk(f: (Seq<char>, Option<Seq<char>>)) -> nat {
    (if is_pii_key(f.0) {
        20nat
    } else {
        0nat
    }) + (if looks_like_email(f.1) {
        10nat
    } else {
        0nat
    })
}

/// Risk all fields add.
pub open spec fn fields_risk(fs: Seq<(Seq<char>, Option<Seq<char>>)>) -> nat
    decreases fs.len(),
{
    if fs.len() == 0 {
        0
    } else {
        fields_risk(fs.drop_last()) + field_risk(fs.last())
    }
}

/// The personal-data keys, in field order.
pub open spec fn pii_keys(fs: Seq<(Seq<char>, Option<Seq<char>>)>) -> Seq<Seq<char>>
    decreases fs.len(),
{
    if fs.len() == 0 {
        Seq::empty()
    } else if is_pii_key(fs.last().0) {
        pii_keys(fs.drop_last()).push(fs.last().0)
    } else {
        pii_keys(fs.drop_last())
    }
}

/// The unclamped risk score: a base of 20, the fields' risk, 15 without
/// consent and 10 for a telemetry context.
pub open spec fn raw_risk(fs: Seq<(Seq<char>, Option<Seq<char>>)>, context: Seq<char>, consent: bool) -> nat {
    20 + fields_risk(fs) + (if consent {
        0nat
    } else {
        15nat
    }) + (if contains_seq(context, "telemetry"@) {
        10nat
    } else {
        0nat
    })
}

/// The level of a risk score.
pub open spec fn risk_level_of(score: nat) -> Seq<char> {
    if score >= 70 {
        "high"@
    } else if score >= 40 {
        "medium"@
    } else {
        "low"@
    }
}

/// Advice attached to every assessment.
pub const RECOMMEND_MINIMIZE: &'static str = "Minimize collected fields to the minimum necessary for the stated purpose.";
/// Advice attached to every assessment.
pub const RECOMMEND_ANONYMIZE: &'static str = "Apply anonymization or hashing before persistence or reporting.";
/// Advice attached to every assessment.
pub const RECOMMEND_CONSENT: &'static str = "Record consent and retention policy for each data processing activity.";
/// Advice attached to every assessment.
pub const RECOMMEND_ACCESS: &'static str = "Review access controls and retention windows for sensitive datasets.";

/// The advice of every assessment, in order.
pub open spec fn recommendations_spec() -> Seq<Seq<char>> {
    seq![RECOMMEND_MINIMIZE@, RECOMMEND_ANONYMIZE@, RECOMMEND_CONSENT@, RECOMMEND_ACCESS@]
}

/// The outcome of a privacy impact assessment.
#[derive(Debug, Clone)]
pub struct PrivacyAssessment {
    pub data_subject: String,
    pub processing_context: String,
    pub pii_detected: Vec<String>,
    pub risk_score: u32,
    pub risk_level: String,
    pub recommendations: Vec<String>,
    pub compliant: bool,
    /// When the assessment was made (RFC 3339).
    pub assessed_at: String,
}

/// A consent decision for one purpose.
#[derive(Debug, Clone)]
pub struct ConsentRecord {
    pub subject: String,
    pub granted: bool,
    /// When the decision was recorded (RFC 3339).
    pub recorded_at: String,
    pub purpose: String,
}

impl ConsentRecord {
    /// The user's consent decision for `purpose`, recorded at `recorded_at`.
    pub fn new(purpose: &str, granted: bool, recorded_at: String) -> (r: Self)
        ensures
            r.subject@ == "user"@,
            r.granted == granted,
            r.recorded_at@ == recorded_at@,
            r.purpose@ == purpose@,
    {
        ConsentRecord {
            subject: to_owned_string("user"),
            granted,
            recorded_at,
            purpose: to_owned_string(purpose),
        }
    }
}

proof fn lemma_fields_risk_prefix(fs: Seq<(Seq<char>, Option<Seq<char>>)>, i: int)
    requires
        0 <= i <= fs.len(),
    ensures
        fields_risk(fs.take(i)) <= fields_risk(fs),
    decreases fs.len() - i,
{
    if i < fs.len() {
        lemma_fields_risk_prefix(fs, i + 1);
        assert(fs.take(i + 1).drop_last() =~= fs.take(i));
    } else {
        assert(fs.take(i) =~= fs);
    }
}

fn is_pii_key_exec(k: &str) -> (r: bool)
    ensures
        r == is_pii_key(k@),
{
    let c = chars_of(k);
    contains_str(&c, "email") || contains_str(&c, "phone") || contains_str(&c, "name")
}

/// Assess the privacy impact of processing a payload with the given top-level
/// fields in `context`. `assessed_at` is the time of the assessment.
///
/// The score starts at 20, adds 20 per personal-data key (`email`, `phone` or
/// `name` in the key) and 10 per e-mail-like string value, 15 without consent
/// and 10 for a telemetry context; it is reported clamped to 100, and the
/// payload is compliant when consent was granted and the unclamped score is
/// below 80.
pub fn assess_privacy_impact(
    fields: &Vec<PayloadField>,
    context: &str,
    consent_granted: bool,
    assessed_at: String,
) -> (r: PrivacyAssessment)
    requires
        raw_risk(field_views(fields@), context@, consent_granted) <= u32::MAX,
    ensures
        r.data_subject@ == "user"@,
        r.processing_context@ == context@,
        string_views(r.pii_detected@) == pii_keys(field_views(fields@)),
        r.risk_score == if raw_risk(field_views(fields@), context@, consent_granted) < 100 {
            raw_risk(field_views(fields@), context@, consent_granted)
        } else {
            100
        },
        r.risk_level@ == risk_level_of(raw_risk(field_views(fields@), context@, consent_granted)),
        string_views(r.recommendations@) == recommendations_spec(),
        r.compliant == (consent_granted && raw_risk(field_views(fields@), context@, consent_granted)
            < 80),
        r.assessed_at@ == assessed_at@,
{
    let ghost fs = field_views(fields@);
    proof {
        lemma_fields_risk_prefix(fs, fs.len() as int);
    }
    let mut pii: Vec<String> = Vec::new();
    let mut risk: u32 = 20;
    let mut i: usize = 0;
    while i < fields.len()
        invariant
            fs == field_views(fields@),
            i <= fields@.len(),
            risk == 20 + fields_risk(fs.take(i as int)),
            20 + fields_risk(fs) <= u32::MAX,
            string_views(pii@) == pii_keys(fs.take(i as int)),
        decreases fields@.len() - i,
    {
        let ghost before = fs.take(i as int);
        proof {
            assert(fs.take(i + 1).drop_last() =~= before);
            assert(fs.take(i + 1).last() == field_view(fields@[i as int]));
            lemma_fields_risk_prefix(fs, i + 1);
        }
        let f = &fields[i];
        if is_pii_key_exec(f.key.as_str()) {
            let k = f.key.clone();
            proof {
                crate::text::lemma_string_views_push(pii@, k);
            }
            pii.push(k);
            risk = risk + 20;
        }
        match &f.text {
            Some(t) => {
                let c = chars_of(t.as_str());
                if contains_str(&c, "@") || contains_str(&c, "example.com") {
                    risk = risk + 10;
                }
            },
            None => {},
        }
        i += 1;
    }
    assert(fs.take(fields@.len() as int) =~= fs);
    if !consent_granted {
        risk = risk + 15;
    }
    let ctx = chars_of(context);
    if contains_str(&ctx, "telemetry") {
        risk = risk + 10;
    }
    let level = if risk >= 70 {
        "high"
    } else if risk >= 40 {
        "medium"
    } else {
        "low"
    };
    let mut recommendations: Vec<String> = Vec::new();
    recommendations.push(to_owned_string(RECOMMEND_MINIMIZE));
    recommendations.push(to_owned_string(RECOMMEND_ANONYMIZE));
    recommendations.push(to_owned_string(RECOMMEND_CONSENT));
    recommendations.push(to_owned_string(RECOMMEND_ACCESS));
    assert(string_views(recommendations@) =~= recommendations_spec());
    PrivacyAssessment {
        data_subject: to_owned_string("user"),
        processing_context: to_owned_string(context),
        pii_detected: pii,
        risk_score: if risk < 100 {
            risk
        } else {
            100
        },
        risk_level: to_owned_string(level),
        recommendations,
        compliant: consent_granted && risk < 80,
        assessed_at,
    }
}

/// The keys kept when a payload is reduced to `allowed_fields`: each allowed
/// field the payload has, in the order of `allowed_fields`.
pub open spec fn minimized_keys(keys: Seq<Seq<char>>, allowed: Seq<Seq<char>>) -> Seq<Seq<char>> {
    allowed.filter(|a: Seq<char>| keys.contains(a))
}

fn has_key(keys: &Vec<String>, k: &str) -> (r: bool)
    ensures
        r == string_views(keys@).contains(k@),
{
    let mut i: usize = 0;
    while i < keys.len()
        invariant
            i <= keys@.len(),
            forall|j: int| 0 <= j < i ==> string_views(keys@)[j] != k@,
        decreases keys@.len() - i,
    {
        if str_eq(keys[i].as_str(), k) {
            assert(string_views(keys@)[i as int] == k@);
            return true;
        }
        i += 1;
    }
    false
}

/// The keys of a payload (`keys`) that survive minimizing it to
/// `allowed_fields`, in the order of `allowed_fields`.
pub fn minimize_payload(keys: &Vec<String>, allowed_fields: &Vec<String>) -> (r: Vec<String>)
    ensures
        string_views(r@) == minimized_keys(string_views(keys@), string_views(allowed_fields@)),
{
    let ghost ks = string_views(keys@);
    let ghost al = string_views(allowed_fields@);
    let mut out: Vec<String> = Vec::new();
    let mut i: usize = 0;
    while i < allowed_fields.len()
        invariant
            ks == string_views(keys@),
            al == string_views(allowed_fields@),
            i <= allowed_fields@.len(),
            string_views(out@) == minimized_keys(ks, al.take(i as int)),
        decreases allowed_fields@.len() - i,
    {
        proof {
            assert(al.take(i + 1).drop_last() =~= al.take(i as int));
            reveal(Seq::filter);
        }
        if has_key(keys, allowed_fields[i].as_str()) {
            let k = allowed_fields[i].clone();
            proof {
                crate::text::lemma_string_views_push(out@, k);
            }
            out.push(k);
        }
        i += 1;
    }
    assert(al.take(allowed_fields@.len() as int) =~= al);
    out
}

/// Whether sanitizing redacts the field with key `k`: its ASCII lower-case
/// form names personal data.
pub open spec fn redacts(k: Seq<char>) -> bool {
    is_pii_key(ascii_lower_seq(k))
}

/// For each key of a payload, whether sanitizing replaces its value with
/// `"[REDACTED]"`; other values are kept as they are.
pub fn sanitize_payload(keys: &Vec<String>) -> (r: Vec<bool>)
    ensures
        r@.len() == keys@.len(),
        forall|i: int| 0 <= i < keys@.len() ==> r@[i] == redacts(#[trigger] keys@[i]@),
{
    let mut out: Vec<bool> = Vec::new();
    let mut i: usize = 0;
    while i < keys.len()
        invariant
            i <= keys@.len(),
            out@.len() == i,
            forall|j: int| 0 <= j < i ==> out@[j] == redacts(#[trigger] keys@[j]@),
        decreases keys@.len() - i,
    {
        let lower = ascii_lowercase(&chars_of(keys[i].as_str()));
        let flag = contains_str(&lower, "email") || contains_str(&lower, "phone") || contains_str(
            &lower,
            "name",
        );
        out.push(flag);
        i += 1;
    }
    out
}

/// The lines of a privacy report, before they are joined with newlines.
pub open spec fn report_lines(a: PrivacyAssessment, consent: ConsentRecord) -> Seq<Seq<char>> {
    let pii_text = if a.pii_detected@.len() == 0 {
        "none"@
    } else {
        join_spec(string_views(a.pii_detected@), ", "@)
    };
    seq![
        "Privacy Report"@,
        "==============="@,
        "Context: "@ + a.processing_context@,
        "Risk Level: "@ + a.risk_level@ + " ("@ + decimal(a.risk_score as nat) + " / 100)"@,
        "PII Detected: "@ + pii_text,
        "Consent: "@ + (if consent.granted {
            "granted"@
        } else {
            "not granted"@
        }),
        "GDPR: baseline controls present"@,
        "Retention: data retained only for the minimum necessary period"@,
        "Access Control: role-based access enforced"@,
        "Recommendations:"@,
    ] + string_views(a.recommendations@).map_values(|r: Seq<char>| "- "@ + r)
}

fn push_line(lines: &mut Vec<String>, line: String)
    ensures
        string_views(final(lines)@) == string_views(old(lines)@).push(line@),
{
    proof {
        crate::text::lemma_string_views_push(lines@, line);
    }
    lines.push(line);
}

/// The plain-text privacy report of an assessment and a consent decision.
pub fn build_privacy_report(assessment: &PrivacyAssessment, consent: &ConsentRecord) -> (r: String)
    ensures
        r@ == join_spec(report_lines(*assessment, *consent), "\n"@),
{
    let pii_text = if assessment.pii_detected.len() == 0 {
        to_owned_string("none")
    } else {
        join(&assessment.pii_detected, ", ")
    };
    let mut lines: Vec<String> = Vec::new();
    push_line(&mut lines, to_owned_string("Privacy Report"));
    push_line(&mut lines, to_owned_string("==============="));
    let mut context = to_owned_string("Context: ");
    push_str(&mut context, assessment.processing_context.as_str());
    push_line(&mut lines, context);
    let mut risk = to_owned_string("Risk Level: ");
    push_str(&mut risk, assessment.risk_level.as_str());
    push_str(&mut risk, " (");
    push_str(&mut risk, decimal_string(assessment.risk_score as u64).as_str());
    push_str(&mut risk, " / 100)");
    push_line(&mut lines, risk);
    let mut pii = to_owned_string("PII Detected: ");
    push_str(&mut pii, pii_text.as_str());
    push_line(&mut lines, pii);
    let mut granted = to_owned_string("Consent: ");
    push_str(
        &mut granted,
        if consent.granted {
            "granted"
        } else {
            "not granted"
        },
    );
    push_line(&mut lines, granted);
    push_line(&mut lines, to_owned_string("GDPR: baseline controls present"));
    push_line(
        &mut lines,
        to_owned_string("Retention: data retained only for the minimum necessary period"),
    );
    push_line(&mut lines, to_owned_string("Access Control: role-based access enforced"));
    push_line(&mut lines, to_owned_string("Recommendations:"));
    let ghost head = string_views(lines@);
    let recs = &assessment.recommendations;
    let mut i: usize = 0;
    while i < recs.len()
        invariant
            i <= recs@.len(),
            string_views(lines@) == head + string_views(recs@).take(i as int).map_values(
                |r: Seq<char>| "- "@ + r,
            ),
        decreases recs@.len() - i,
    {
        let mut line = to_owned_string("- ");
        push_str(&mut line, recs[i].as_str());
        push_line(&mut lines, line);
        i += 1;
        proof {
            assert(string_views(recs@).take(i as int).map_values(|r: Seq<char>| "- "@ + r)
                =~= string_views(recs@).take(i - 1).map_values(|r: Seq<char>| "- "@ + r).push(
                "- "@ + recs@[i - 1]@,
            ));
        }
    }
    proof {
        assert(string_views(recs@).take(recs@.len() as int) =~= string_views(recs@));
        assert(string_views(lines@) =~= report_lines(*assessment, *consent));
    }
    join(&lines, "\n")
}

} // verus!
