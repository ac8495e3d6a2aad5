//! Security best-practices analyzer for Soroban contracts: the source model
//! the rules read (lines, functions, test modules), the rule library and the
//! analyzer's selection of rules.
//!
//! Findings can be suppressed inline with a justification comment on the
//! offending line or the line above it:
//!
//! ```text
//! // starforge-allow(SF-ERR-001): value was validated above
//! ```

use vstd::prelude::*;
use crate::security::checks::{
    body_rule_hits, check_body_rule, check_external_calls, check_function_rule, check_line_rule,
    check_missing_ttl, check_no_std, check_overflow_profile, external_call_hits,
    function_rule_hits, line_rule_hits, missing_ttl_hits, no_std_hits, overflow_profile_hits,
    violation_views, BodyRule, FunctionRule, LineRule,
};
use crate::security::analysis::{fingerprint, fingerprint_spec, suppression, suppression_spec};
use crate::text::{
    lemma_seq_lt_asym, lemma_seq_lt_total, lemma_seq_lt_trans, seq_lt, str_lt,
    chars_eq, chars_of, contains_seq, eq_str, find_first, first_occurrence, is_prefix, is_ws,
    join, join_spec, push_str, slice_chars, split, split_spec, starts_with_str, string_of,
    string_views, to_lowercase, to_owned_string, trim, trim_chars, trim_start, trim_start_chars,
    trim_end, trim_end_chars, trim_str, unicode_lowercase, views,
};

verus! {

/// Default per-project remediation state file.
pub const DEFAULT_STATE_FILE: &'static str = ".starforge/security/best-practices.json";

// ── Severity ──────────────────────────────────────────────────────────────────

/// Severity of a rule, from least to most severe.
#[derive(Debug, Clone, Copy, PartialEq, Eq, Structural, PartialOrd, Ord, Hash)]
pub enum Severity {
    Info,
    Low,
    Medium,
    High,
    Critical,
}

/// Position of a severity in the order `Info < Low < Medium < High < Critical`.
pub open spec fn severity_level(s: Severity) -> nat {
    match s {
        Severity::Info => 0,
        Severity::Low => 1,
        Severity::Medium => 2,
        Severity::High => 3,
        Severity::Critical => 4,
    }
}

/// The severity a lower-cased word names.
pub open spec fn severity_of_word(w: Seq<char>) -> Option<Severity> {
    if w == "info"@ {
        Some(Severity::Info)
    } else if w == "low"@ {
        Some(Severity::Low)
    } else if w == "medium"@ {
        Some(Severity::Medium)
    } else if w == "high"@ {
        Some(Severity::High)
    } else if w == "critical"@ {
        Some(Severity::Critical)
    } else {
        None
    }
}

/// A flag value reduced to a word: trimmed, then lower-cased.
pub open spec fn word_of(value: Seq<char>) -> Seq<char> {
    unicode_lowercase(trim(value))
}

fn word_chars(value: &str) -> (r: Vec<char>)
    ensures
        r@ == word_of(value@),
        crate::text::lower_ascii_letters(value@) ==> r@ == value@,
{
    let t = string_of(&trim_str(value));
    proof {
        if crate::text::lower_ascii_letters(value@) {
            if value@.len() > 0 {
                assert('a' <= value@[0]);
                assert('a' <= value@.last());
            }
            assert(crate::text::trim_start(value@) == value@);
            assert(crate::text::trim_end(value@) == value@);
        }
    }
    chars_of(to_lowercase(t.as_str()).as_str())
}

impl Severity {
    /// Parses a severity name, ignoring case and surrounding blanks.
    pub fn parse(value: &str) -> (r: Result<Severity, String>)
        ensures
            crate::text::lower_ascii_letters(value@) ==> (severity_of_word(value@) matches Some(s)
                ==> r == Ok::<Severity, String>(s)),
            match severity_of_word(word_of(value@)) {
                Some(s) => r == Ok::<Severity, String>(s),
                None => r matches Err(m) && m@ == "unknown severity '"@ + word_of(value@)
                    + "'; use info, low, medium, high, or critical"@,
            },
    {
        let w = word_chars(value);
        if eq_str(&w, "info") {
            Ok(Severity::Info)
        } else if eq_str(&w, "low") {
            Ok(Severity::Low)
        } else if eq_str(&w, "medium") {
            Ok(Severity::Medium)
        } else if eq_str(&w, "high") {
            Ok(Severity::High)
        } else if eq_str(&w, "critical") {
            Ok(Severity::Critical)
        } else {
            let mut m = to_owned_string("unknown severity '");
            push_str(&mut m, string_of(&w).as_str());
            push_str(&mut m, "'; use info, low, medium, high, or critical");
            Err(m)
        }
    }

    /// The lower-case name.
    pub fn label(self) -> (r: &'static str)
        ensures
            crate::text::lower_ascii_letters(r@),
            severity_of_word(r@) == Some(self),
            r == match self {
                Severity::Info => "info",
                Severity::Low => "low",
                Severity::Medium => "medium",
                Severity::High => "high",
                Severity::Critical => "critical",
            },
    {
        proof {
            reveal_strlit("info");
            reveal_strlit("low");
            reveal_strlit("medium");
            reveal_strlit("high");
            reveal_strlit("critical");
        }
        let r = match self {
            Severity::Info => "info",
            Severity::Low => "low",
            Severity::Medium => "medium",
            Severity::High => "high",
            Severity::Critical => "critical",
        };
        assert("info"@.len() == 4);
        assert("low"@.len() == 3);
        assert("medium"@.len() == 6);
        assert("high"@.len() == 4);
        assert("critical"@.len() == 8);
        assert("high"@[0] != "info"@[0]);
        r
    }

    /// The position in the severity order.
    pub fn level(self) -> (r: u8)
        ensures
            r == severity_level(self),
    {
        match self {
            Severity::Info => 0,
            Severity::Low => 1,
            Severity::Medium => 2,
            Severity::High => 3,
            Severity::Critical => 4,
        }
    }

    /// SARIF result level.
    pub fn sarif_level(self) -> (r: &'static str)
        ensures
            r == match self {
                Severity::Critical | Severity::High => "error",
                Severity::Medium => "warning",
                Severity::Low | Severity::Info => "note",
            },
    {
        match self {
            Severity::Critical | Severity::High => "error",
            Severity::Medium => "warning",
            Severity::Low | Severity::Info => "note",
        }
    }
}

// ── Source model ──────────────────────────────────────────────────────────────

/// A function extracted from contract source.
#[derive(Debug, Clone)]
pub struct SourceFunction {
    pub name: String,
    pub is_pub: bool,
    /// 1-based line of the `fn` signature.
    pub line: usize,
    /// Body text including the signature.
    pub body: String,
    /// The function lives in a `#[contractimpl]` block.
    pub in_contract_impl: bool,
    /// The function is preceded by a `///` doc comment.
    pub documented: bool,
}

/// Parsed view of one contract source file, handed to every rule.
#[derive(Debug, Clone)]
pub struct ContractSource {
    pub path: String,
    pub text: String,
    pub lines: Vec<String>,
    pub functions: Vec<SourceFunction>,
    /// Line ranges (1-based, inclusive) of `#[cfg(test)]` modules.
    pub test_ranges: Vec<(usize, usize)>,
}

/// A violation reported by a rule check.
#[derive(Debug, Clone)]
pub struct Violation {
    pub line: usize,
    pub function: Option<String>,
    pub evidence: String,
}

/// A line without its trailing carriage return.
pub open spec fn strip_cr(s: Seq<char>) -> Seq<char> {
    if s.len() > 0 && s.last() == '\r' {
        s.drop_last()
    } else {
        s
    }
}

/// `str::lines`: pieces between newlines, each without a `\r` before its
/// newline; a final newline ends the last line rather than starting an
/// empty one.
pub open spec fn lines_spec(text: Seq<char>) -> Seq<Seq<char>> {
    let ps = split_spec(text, '\n');
    let n = ps.len();
    let count = if ps[n - 1].len() == 0 {
        n - 1
    } else {
        n as int
    };
    Seq::new(count as nat, |i: int| if i < n - 1 { strip_cr(ps[i]) } else { ps[i] })
}

/// The code of a line: everything before its first `//`.
pub open spec fn strip_comment(line: Seq<char>) -> Seq<char> {
    match first_occurrence(line, "//"@) {
        Some(i) => line.take(i),
        None => line,
    }
}

/// Occurrences of `c` in `s`.
pub open spec fn count_char(s: Seq<char>, c: char) -> int
    decreases s.len(),
{
    if s.len() == 0 {
        0
    } else {
        count_char(s.drop_last(), c) + if s.last() == c {
            1int
        } else {
            0int
        }
    }
}

/// Net change in brace depth over the code of a line.
pub open spec fn brace_delta(line: Seq<char>) -> int {
    count_char(strip_comment(line), '{') - count_char(strip_comment(line), '}')
}

/// `s` contains the character `c`.
pub open spec fn has_char(s: Seq<char>, c: char) -> bool {
    exists|i: int| 0 <= i < s.len() && s[i] == c
}

/// `s` ends with `c`.
pub open spec fn ends_with_char(s: Seq<char>, c: char) -> bool {
    s.len() > 0 && s.last() == c
}

/// End line (1-based, inclusive) of the block opened at or after line `i`
/// (0-based), with `depth` and `opened` carried from the lines before: the
/// line where the depth returns to zero once a brace was seen, or a line
/// ending with `;` before any brace (a bodiless declaration), or the last
/// line.
pub open spec fn block_end_from(lines: Seq<Seq<char>>, i: int, depth: int, opened: bool) -> int
    decreases lines.len() - i,
{
    if i < 0 || i >= lines.len() {
        lines.len() as int
    } else {
        let code = strip_comment(lines[i]);
        let now_opened = opened || has_char(code, '{');
        let d = depth + brace_delta(lines[i]);
        if now_opened && d <= 0 {
            i + 1
        } else if !now_opened && ends_with_char(trim_end(code), ';') {
            i + 1
        } else {
            block_end_from(lines, i + 1, d, now_opened)
        }
    }
}

/// End line (1-based, inclusive) of the block starting at line `start`.
pub open spec fn block_end(lines: Seq<Seq<char>>, start: int) -> int {
    block_end_from(lines, start, 0, false)
}

pub proof fn lemma_block_end_bound(lines: Seq<Seq<char>>, i: int, depth: int, opened: bool)
    requires
        0 <= i,
    ensures
        i < block_end_from(lines, i, depth, opened) <= lines.len() || (i >= lines.len()
            && block_end_from(lines, i, depth, opened) == lines.len()),
    decreases lines.len() - i,
{
    if i < lines.len() {
        let code = strip_comment(lines[i]);
        let now_opened = opened || has_char(code, '{');
        let d = depth + brace_delta(lines[i]);
        if !(now_opened && d <= 0) && !(!now_opened && ends_with_char(trim_end(code), ';')) {
            lemma_block_end_bound(lines, i + 1, d, now_opened);
        }
    }
}

/// Whether a line opens a `#[cfg(test)]` module.
pub open spec fn is_test_attr(line: Seq<char>) -> bool {
    is_prefix("#[cfg(test)]"@, trim_start(line))
}

/// The `#[cfg(test)]` module ranges from line `i` on.
pub open spec fn test_ranges_from(lines: Seq<Seq<char>>, i: int) -> Seq<(int, int)>
    decreases lines.len() - i,
{
    if i < 0 || i >= lines.len() {
        Seq::empty()
    } else if is_test_attr(lines[i]) {
        let end = block_end(lines, i + 1);
        proof {
            lemma_block_end_bound(lines, i + 1, 0, false);
        }
        seq![(i + 1, end)] + test_ranges_from(lines, end)
    } else {
        test_ranges_from(lines, i + 1)
    }
}

/// `line` (1-based) lies in one of the ranges.
pub open spec fn in_ranges(ranges: Seq<(usize, usize)>, line: int) -> bool {
    exists|k: int| 0 <= k < ranges.len() && (#[trigger] ranges[k]).0 <= line <= ranges[k].1
}

/// `line` (1-based) lies in one of the integer ranges.
pub open spec fn in_int_ranges(ranges: Seq<(int, int)>, line: int) -> bool {
    exists|k: int| 0 <= k < ranges.len() && (#[trigger] ranges[k]).0 <= line <= ranges[k].1
}

pub proof fn lemma_in_ranges_views(r: Seq<(usize, usize)>, line: int)
    ensures
        in_ranges(r, line) == in_int_ranges(range_views(r), line),
{
    if in_ranges(r, line) {
        let k = choose|k: int| 0 <= k < r.len() && (#[trigger] r[k]).0 <= line <= r[k].1;
        assert(range_views(r)[k] == (r[k].0 as int, r[k].1 as int));
    }
    if in_int_ranges(range_views(r), line) {
        let k = choose|k: int|
            0 <= k < range_views(r).len() && (#[trigger] range_views(r)[k]).0 <= line
                <= range_views(r)[k].1;
        assert(range_views(r)[k] == (r[k].0 as int, r[k].1 as int));
    }
}

/// The ranges as integers.
pub open spec fn range_views(r: Seq<(usize, usize)>) -> Seq<(int, int)> {
    r.map_values(|p: (usize, usize)| (p.0 as int, p.1 as int))
}

/// The character views of a vector of strings.
pub open spec fn line_views(v: Seq<String>) -> Seq<Seq<char>> {
    string_views(v)
}

/// `str::lines` on a `str`.
pub(crate) fn split_lines(text: &str) -> (r: Vec<String>)
    ensures
        line_views(r@) == lines_spec(text@),
{
    let chars = chars_of(text);
    let ps = split(&chars, '\n');
    let ghost pv = views(ps@);
    let n = ps.len();
    assert(pv.len() == ps@.len());
    assert(pv.len() >= 1);
    let count = if ps[n - 1].len() == 0 {
        n - 1
    } else {
        n
    };
    assert(pv[n - 1] == ps@[n - 1]@);
    let mut out: Vec<String> = Vec::new();
    let mut i: usize = 0;
    while i < count
        invariant
            i <= count,
            count <= n,
            n == ps@.len(),
            pv == views(ps@),
            pv == split_spec(text@, '\n'),
            line_views(out@) == lines_spec(text@).take(i as int),
            lines_spec(text@).len() == count,
        decreases count - i,
    {
        let piece = &ps[i];
        assert(pv[i as int] == piece@);
        let line: String = if i + 1 < n && piece.len() > 0 && piece[piece.len() - 1] == '\r' {
            let v = slice_chars(piece, 0, piece.len() - 1);
            assert(v@ =~= piece@.drop_last());
            string_of(&v)
        } else {
            string_of(piece)
        };
        proof {
            crate::text::lemma_string_views_push(out@, line);
            assert(lines_spec(text@).take(i + 1) =~= lines_spec(text@).take(i as int).push(line@));
        }
        out.push(line);
        i += 1;
    }
    assert(lines_spec(text@).take(i as int) =~= lines_spec(text@));
    out
}

/// The code of a line: everything before its first `//`.
pub fn strip_line_comment(line: &str) -> (r: String)
    ensures
        r@ == strip_comment(line@),
{
    let chars = chars_of(line);
    let marker = chars_of("//");
    proof {
        crate::text::lemma_first_occurrence(line@, "//"@, 0);
    }
    assert(marker@ == "//"@);
    match find_first(&chars, &marker) {
        Some(i) => {
            assert(first_occurrence(line@, "//"@) == Some(i as int));
            let v = slice_chars(&chars, 0, i);
            assert(v@ =~= line@.take(i as int));
            let r = string_of(&v);
            assert(r@ == strip_comment(line@));
            r
        },
        None => {
            assert(first_occurrence(line@, "//"@) is None);
            to_owned_string(line)
        },
    }
}

/// Occurrences of `c`.
fn count_chars(s: &[char], c: char) -> (r: usize)
    ensures
        r == count_char(s@, c),
{
    let mut n: usize = 0;
    let mut i: usize = 0;
    while i < s.len()
        invariant
            i <= s@.len(),
            n == count_char(s@.take(i as int), c),
            n <= i,
        decreases s@.len() - i,
    {
        assert(s@.take(i + 1).drop_last() =~= s@.take(i as int));
        if s[i] == c {
            n += 1;
        }
        i += 1;
    }
    assert(s@.take(i as int) =~= s@);
    n
}

/// Whether `s` has the character `c`.
fn has_char_exec(s: &[char], c: char) -> (r: bool)
    ensures
        r == has_char(s@, c),
{
    let mut i: usize = 0;
    while i < s.len()
        invariant
            i <= s@.len(),
            forall|k: int| 0 <= k < i ==> s@[k] != c,
        decreases s@.len() - i,
    {
        if s[i] == c {
            return true;
        }
        i += 1;
    }
    false
}

/// A signed depth as sign and magnitude.
pub open spec fn signed(neg: bool, mag: u128) -> int {
    if neg {
        -(mag as int)
    } else {
        mag as int
    }
}

/// `signed(neg, mag) + up - down`, as sign and magnitude.
fn add_delta(neg: bool, mag: u128, up: usize, down: usize) -> (r: (bool, u128))
    requires
        mag as int + up as int <= u128::MAX,
        mag as int + down as int <= u128::MAX,
    ensures
        signed(r.0, r.1) == signed(neg, mag) + up - down,
        r.1 <= mag as int + up as int || r.1 <= mag as int + down as int,
{
    if !neg {
        let t = mag + up as u128;
        if t >= down as u128 {
            (false, t - down as u128)
        } else {
            (true, down as u128 - t)
        }
    } else {
        if up as u128 >= mag {
            let t = up as u128 - mag;
            if t >= down as u128 {
                (false, t - down as u128)
            } else {
                (true, down as u128 - t)
            }
        } else {
            (true, mag - up as u128 + down as u128)
        }
    }
}

proof fn lemma_count_char_bound(s: Seq<char>, c: char)
    ensures
        0 <= count_char(s, c) <= s.len(),
    decreases s.len(),
{
    if s.len() > 0 {
        lemma_count_char_bound(s.drop_last(), c);
    }
}

/// End line (1-based, inclusive) of the block opened at or after line
/// `start` (0-based).
pub fn block_end_exec(lines: &Vec<String>, start: usize) -> (r: usize)
    ensures
        r == block_end(line_views(lines@), start as int),
{
    let ghost lv = line_views(lines@);
    let mut neg = false;
    let mut mag: u128 = 0;
    let mut opened = false;
    let mut i = start;
    while i < lines.len()
        invariant
            lv == line_views(lines@),
            start <= i,
            i <= lines@.len() || i == start,
            block_end(lv, start as int) == block_end_from(lv, i as int, signed(neg, mag), opened),
            mag as int <= (i - start) * (usize::MAX as int),
        decreases lines@.len() - i,
    {
        assert(lv[i as int] == lines@[i as int]@);
        let code = chars_of(strip_line_comment(lines[i].as_str()).as_str());
        if has_char_exec(&code, '{') {
            opened = true;
        }
        let opens = count_chars(&code, '{');
        let closes = count_chars(&code, '}');
        assert((i - start + 1) * (usize::MAX as int) <= (usize::MAX as int) * (usize::MAX as int)) by (nonlinear_arith)
            requires
                i - start + 1 <= usize::MAX,
        ;
        assert((usize::MAX as int) * (usize::MAX as int) + usize::MAX <= u128::MAX) by (nonlinear_arith);
        let (n2, m2) = add_delta(neg, mag, opens, closes);
        let nonpositive = n2 || m2 == 0;
        if opened && nonpositive {
            return i + 1;
        }
        let t = trim_end_chars(&code);
        if !opened && t.len() > 0 && t[t.len() - 1] == ';' {
            return i + 1;
        }
        neg = n2;
        mag = m2;
        i += 1;
    }
    if start > lines.len() {
        return lines.len();
    }
    lines.len()
}


/// Whether a line opens a `#[cfg(test)]` module.
fn is_test_attr_exec(line: &str) -> (r: bool)
    ensures
        r == is_test_attr(line@),
{
    let t = trim_start_chars(&chars_of(line));
    starts_with_str(&t, "#[cfg(test)]")
}

/// The `#[cfg(test)]` module ranges (1-based, inclusive).
pub fn find_test_ranges(lines: &Vec<String>) -> (r: Vec<(usize, usize)>)
    ensures
        range_views(r@) == test_ranges_from(line_views(lines@), 0),
{
    let ghost lv = line_views(lines@);
    let mut ranges: Vec<(usize, usize)> = Vec::new();
    let mut i: usize = 0;
    while i < lines.len()
        invariant
            lv == line_views(lines@),
            i <= lines@.len(),
            range_views(ranges@) + test_ranges_from(lv, i as int) == test_ranges_from(lv, 0),
        decreases lines@.len() - i,
    {
        assert(lv[i as int] == lines@[i as int]@);
        if is_test_attr_exec(lines[i].as_str()) {
            let end = block_end_exec(lines, i + 1);
            proof {
                lemma_block_end_bound(lv, i + 1, 0, false);
                assert(range_views(ranges@.push(((i + 1) as usize, end))) =~= range_views(ranges@).push(
                    ((i + 1) as int, end as int),
                ));
            }
            ranges.push((i + 1, end));
            i = end;
        } else {
            i += 1;
        }
    }
    assert(test_ranges_from(lv, i as int) =~= Seq::<(int, int)>::empty());
    assert(range_views(ranges@) + Seq::<(int, int)>::empty() =~= range_views(ranges@));
    ranges
}

/// Whether `line` (1-based) lies in one of the ranges.
fn in_ranges_exec(ranges: &Vec<(usize, usize)>, line: usize) -> (r: bool)
    ensures
        r == in_ranges(ranges@, line as int),
{
    let mut k: usize = 0;
    while k < ranges.len()
        invariant
            k <= ranges@.len(),
            forall|j: int| 0 <= j < k ==> !((#[trigger] ranges@[j]).0 <= line <= ranges@[j].1),
        decreases ranges@.len() - k,
    {
        if ranges[k].0 <= line && line <= ranges[k].1 {
            return true;
        }
        k += 1;
    }
    false
}

impl ContractSource {
    /// Whether `line` (1-based) belongs to a `#[cfg(test)]` module.
    pub fn in_test_code(&self, line: usize) -> (r: bool)
        ensures
            r == in_ranges(self.test_ranges@, line as int),
    {
        in_ranges_exec(&self.test_ranges, line)
    }
}

/// `char::is_alphanumeric` (Unicode alphabetic or numeric).
pub uninterp spec fn unicode_alphanumeric(c: char) -> bool;

/// `char::is_alphanumeric`.
#[verifier::external_body]
fn is_alphanumeric(c: char) -> (r: bool)
    ensures
        r == unicode_alphanumeric(c),
{
    c.is_alphanumeric()
}

/// A character that can appear in a function name.
pub open spec fn is_ident_char(c: char) -> bool {
    unicode_alphanumeric(c) || c == '_'
}

/// The leading identifier characters of `s`.
pub open spec fn ident_prefix(s: Seq<char>) -> Seq<char>
    decreases s.len(),
{
    if s.len() > 0 && is_ident_char(s[0]) {
        seq![s[0]] + ident_prefix(s.drop_first())
    } else {
        Seq::empty()
    }
}

/// The code of a line with leading blanks removed.
pub open spec fn code_of(line: Seq<char>) -> Seq<char> {
    trim_start(strip_comment(line))
}

/// The code after a `pub(crate) ` or `pub ` prefix.
pub open spec fn after_visibility(code: Seq<char>) -> Seq<char> {
    if is_prefix("pub(crate) "@, code) {
        code.skip(11)
    } else if is_prefix("pub "@, code) {
        code.skip(4)
    } else {
        code
    }
}

/// What follows `fn ` on a function signature line.
pub open spec fn signature_of(line: Seq<char>) -> Option<Seq<char>> {
    let rest = after_visibility(code_of(line));
    if is_prefix("fn "@, rest) {
        Some(rest.skip(3))
    } else {
        None
    }
}

/// Whether a line starts an attribute `#[contractimpl...`.
pub open spec fn is_contractimpl_attr(line: Seq<char>) -> bool {
    is_prefix("#[contractimpl"@, trim_start(line))
}

/// Whether a line starts with `impl`.
pub open spec fn is_impl_line(line: Seq<char>) -> bool {
    is_prefix("impl"@, trim_start(line))
}

/// The first `impl` line from `j` on.
pub open spec fn first_impl_from(lines: Seq<Seq<char>>, j: int) -> Option<int>
    decreases lines.len() - j,
{
    if j < 0 || j >= lines.len() {
        None
    } else if is_impl_line(lines[j]) {
        Some(j)
    } else {
        first_impl_from(lines, j + 1)
    }
}

/// Line ranges `(first, end)` of the `#[contractimpl]` blocks whose
/// attribute lies in lines `0..i`: a function at 0-based line `k` is inside
/// when `first <= k + 1` and `k < end`.
pub open spec fn impl_ranges_upto(lines: Seq<Seq<char>>, i: int) -> Seq<(int, int)>
    decreases i,
{
    if i <= 0 || i > lines.len() {
        Seq::empty()
    } else {
        let rest = impl_ranges_upto(lines, i - 1);
        if is_contractimpl_attr(lines[i - 1]) {
            match first_impl_from(lines, i) {
                Some(st) => rest.push((st + 1, block_end(lines, st))),
                None => rest,
            }
        } else {
            rest
        }
    }
}

/// The function at 0-based line `k` lies in one of the impl ranges.
pub open spec fn in_impl(ranges: Seq<(int, int)>, k: int) -> bool {
    exists|j: int| 0 <= j < ranges.len() && (#[trigger] ranges[j]).0 <= k + 1 && k < ranges[j].1
}

/// The first line before `j` that is not an attribute starts with `///`.
pub open spec fn documented_before(lines: Seq<Seq<char>>, j: int) -> bool
    decreases j,
{
    if j <= 0 || j > lines.len() {
        false
    } else if is_prefix("#["@, trim(lines[j - 1])) {
        documented_before(lines, j - 1)
    } else {
        is_prefix("///"@, trim(lines[j - 1]))
    }
}

/// The view of a function: name, visibility, line, body, in a contract impl,
/// documented.
pub open spec fn function_view(f: SourceFunction) -> (Seq<char>, bool, int, Seq<char>, bool, bool) {
    (f.name@, f.is_pub, f.line as int, f.body@, f.in_contract_impl, f.documented)
}

/// The function declared at line `i`, if any: outside test modules, with a
/// non-empty name.
pub open spec fn function_at_line(
    lines: Seq<Seq<char>>,
    tests: Seq<(int, int)>,
    impls: Seq<(int, int)>,
    i: int,
) -> Option<(Seq<char>, bool, int, Seq<char>, bool, bool)> {
    match signature_of(lines[i]) {
        None => None,
        Some(sig) => {
            let name = ident_prefix(sig);
            if name.len() == 0 || in_int_ranges(tests, i + 1) {
                None
            } else {
                let end = block_end(lines, i);
                Some(
                    (
                        name,
                        is_prefix("pub "@, code_of(lines[i])),
                        i + 1,
                        join_spec(lines.subrange(i, end), "\n"@),
                        in_impl(impls, i),
                        documented_before(lines, i),
                    ),
                )
            }
        },
    }
}

/// The functions declared in lines `0..i`, in order.
pub open spec fn functions_upto(
    lines: Seq<Seq<char>>,
    tests: Seq<(int, int)>,
    impls: Seq<(int, int)>,
    i: int,
) -> Seq<(Seq<char>, bool, int, Seq<char>, bool, bool)>
    decreases i,
{
    if i <= 0 || i > lines.len() {
        Seq::empty()
    } else {
        let rest = functions_upto(lines, tests, impls, i - 1);
        match function_at_line(lines, tests, impls, i - 1) {
            Some(f) => rest.push(f),
            None => rest,
        }
    }
}

/// The leading identifier of `s`.
fn ident_prefix_exec(s: &[char]) -> (r: Vec<char>)
    ensures
        r@ == ident_prefix(s@),
{
    let mut k: usize = 0;
    while k < s.len() && (is_alphanumeric(s[k]) || s[k] == '_')
        invariant
            k <= s@.len(),
            forall|j: int| 0 <= j < k ==> is_ident_char(#[trigger] s@[j]),
        decreases s@.len() - k,
    {
        k += 1;
    }
    let r = slice_chars(s, 0, k);
    proof {
        lemma_ident_prefix(s@, k as int);
    }
    r
}

proof fn lemma_ident_prefix(s: Seq<char>, k: int)
    requires
        0 <= k <= s.len(),
        forall|j: int| 0 <= j < k ==> is_ident_char(#[trigger] s[j]),
        k == s.len() || !is_ident_char(s[k]),
    ensures
        ident_prefix(s) == s.subrange(0, k),
    decreases k,
{
    if k > 0 {
        lemma_ident_prefix(s.drop_first(), k - 1);
        assert(s.subrange(0, k) =~= seq![s[0]] + s.drop_first().subrange(0, k - 1));
    } else {
        assert(s.subrange(0, 0) =~= Seq::<char>::empty());
    }
}

/// The first `impl` line from `j` on.
fn first_impl_exec(lines: &Vec<String>, j: usize) -> (r: Option<usize>)
    ensures
        match first_impl_from(line_views(lines@), j as int) {
            Some(k) => r == Some(k as usize) && j <= k < lines@.len(),
            None => r is None,
        },
{
    let ghost lv = line_views(lines@);
    let mut k = j;
    while k < lines.len()
        invariant
            lv == line_views(lines@),
            j <= k,
            first_impl_from(lv, j as int) == first_impl_from(lv, k as int),
        decreases lines@.len() - k,
    {
        assert(lv[k as int] == lines@[k as int]@);
        let t = trim_start_chars(&chars_of(lines[k].as_str()));
        if starts_with_str(&t, "impl") {
            return Some(k);
        }
        k += 1;
    }
    None
}

/// The `#[contractimpl]` block ranges.
fn find_impl_ranges(lines: &Vec<String>) -> (r: Vec<(usize, usize)>)
    ensures
        range_views(r@) == impl_ranges_upto(line_views(lines@), lines@.len() as int),
{
    let ghost lv = line_views(lines@);
    let mut out: Vec<(usize, usize)> = Vec::new();
    let mut i: usize = 0;
    while i < lines.len()
        invariant
            lv == line_views(lines@),
            i <= lines@.len(),
            range_views(out@) == impl_ranges_upto(lv, i as int),
        decreases lines@.len() - i,
    {
        assert(lv[i as int] == lines@[i as int]@);
        let t = trim_start_chars(&chars_of(lines[i].as_str()));
        if starts_with_str(&t, "#[contractimpl") {
            match first_impl_exec(lines, i + 1) {
                Some(st) => {
                    let end = block_end_exec(lines, st);
                    let first = st + 1;
                    assert(range_views(out@.push((first, end))) =~= range_views(out@).push(
                        (first as int, end as int),
                    ));
                    out.push((first, end));
                },
                None => {},
            }
        }
        i += 1;
    }
    out
}

/// Whether the function at 0-based line `k` is inside an impl range.
fn in_impl_exec(ranges: &Vec<(usize, usize)>, k: usize) -> (r: bool)
    requires
        k < usize::MAX,
    ensures
        r == in_impl(range_views(ranges@), k as int),
{
    let mut j: usize = 0;
    while j < ranges.len()
        invariant
            k < usize::MAX,
            j <= ranges@.len(),
            forall|x: int|
                0 <= x < j ==> !((#[trigger] range_views(ranges@)[x]).0 <= k + 1 && k < range_views(
                    ranges@,
                )[x].1),
        decreases ranges@.len() - j,
    {
        if ranges[j].0 <= k + 1 && k < ranges[j].1 {
            assert(range_views(ranges@)[j as int] == (ranges@[j as int].0 as int, ranges@[j as int].1 as int));
            return true;
        }
        assert(range_views(ranges@)[j as int] == (ranges@[j as int].0 as int, ranges@[j as int].1 as int));
        j += 1;
    }
    false
}

/// Whether the function at line `j` is documented.
fn documented_exec(lines: &Vec<String>, j: usize) -> (r: bool)
    requires
        j <= lines@.len(),
    ensures
        r == documented_before(line_views(lines@), j as int),
{
    let ghost lv = line_views(lines@);
    let mut k = j;
    while k > 0
        invariant
            lv == line_views(lines@),
            k <= j <= lines@.len(),
            documented_before(lv, j as int) == documented_before(lv, k as int),
        decreases k,
    {
        assert(lv[k - 1] == lines@[k - 1]@);
        let t = trim_chars(&chars_of(lines[k - 1].as_str()));
        if !starts_with_str(&t, "#[") {
            return starts_with_str(&t, "///");
        }
        k -= 1;
    }
    false
}


/// The lines `a..b` as new strings.
fn sub_lines(lines: &Vec<String>, a: usize, b: usize) -> (r: Vec<String>)
    requires
        a <= b <= lines@.len(),
    ensures
        line_views(r@) == line_views(lines@).subrange(a as int, b as int),
{
    let ghost lv = line_views(lines@);
    let mut out: Vec<String> = Vec::new();
    let mut k = a;
    while k < b
        invariant
            lv == line_views(lines@),
            a <= k <= b <= lines@.len(),
            line_views(out@) == lv.subrange(a as int, k as int),
        decreases b - k,
    {
        assert(lv[k as int] == lines@[k as int]@);
        let line = to_owned_string(lines[k].as_str());
        proof {
            crate::text::lemma_string_views_push(out@, line);
        }
        out.push(line);
        k += 1;
        assert(line_views(out@) =~= lv.subrange(a as int, k as int));
    }
    out
}

/// The code after a `pub(crate) ` or `pub ` prefix.
fn after_visibility_exec(code: &Vec<char>) -> (r: Vec<char>)
    ensures
        r@ == after_visibility(code@),
{
    proof {
        reveal_strlit("pub(crate) ");
        reveal_strlit("pub ");
    }
    if starts_with_str(code, "pub(crate) ") {
        slice_chars(code, 11, code.len())
    } else if starts_with_str(code, "pub ") {
        slice_chars(code, 4, code.len())
    } else {
        code.clone()
    }
}

/// The function declared at line `i`, if any.
fn function_at_exec(
    lines: &Vec<String>,
    tests: &Vec<(usize, usize)>,
    impls: &Vec<(usize, usize)>,
    i: usize,
) -> (r: Option<SourceFunction>)
    requires
        i < lines@.len(),
    ensures
        match function_at_line(line_views(lines@), range_views(tests@), range_views(impls@), i as int) {
            Some(v) => r matches Some(f) && function_view(f) == v,
            None => r is None,
        },
{
    let ghost lv = line_views(lines@);
    let n = lines.len();
    assert(lv[i as int] == lines@[i as int]@);
    let code = trim_start_chars(&chars_of(strip_line_comment(lines[i].as_str()).as_str()));
    assert(code@ == code_of(lv[i as int]));
    let rest = after_visibility_exec(&code);
    proof {
        reveal_strlit("fn ");
    }
    if !starts_with_str(&rest, "fn ") {
        return None;
    }
    proof {
        lemma_in_ranges_views(tests@, i + 1);
    }
    let sig = slice_chars(&rest, 3, rest.len());
    assert(sig@ =~= rest@.skip(3));
    let name = ident_prefix_exec(&sig);
    if name.len() == 0 || in_ranges_exec(tests, i + 1) {
        return None;
    }
    let end = block_end_exec(lines, i);
    proof {
        lemma_block_end_bound(lv, i as int, 0, false);
    }
    let body = join(&sub_lines(lines, i, end), "\n");
    let documented = documented_exec(lines, i);
    let in_contract_impl = in_impl_exec(impls, i);
    let f = SourceFunction {
        name: string_of(&name),
        is_pub: starts_with_str(&code, "pub "),
        line: i + 1,
        body,
        in_contract_impl,
        documented,
    };
    Some(f)
}

/// The functions declared outside test modules, in source order.
fn extract_functions(lines: &Vec<String>, tests: &Vec<(usize, usize)>) -> (r: Vec<SourceFunction>)
    ensures
        r@.map_values(|f: SourceFunction| function_view(f)) == functions_upto(
            line_views(lines@),
            range_views(tests@),
            impl_ranges_upto(line_views(lines@), lines@.len() as int),
            lines@.len() as int,
        ),
{
    let ghost lv = line_views(lines@);
    let impls = find_impl_ranges(lines);
    let ghost iv = range_views(impls@);
    let mut out: Vec<SourceFunction> = Vec::new();
    let mut i: usize = 0;
    while i < lines.len()
        invariant
            lv == line_views(lines@),
            iv == range_views(impls@),
            iv == impl_ranges_upto(lv, lines@.len() as int),
            i <= lines@.len(),
            out@.map_values(|f: SourceFunction| function_view(f)) == functions_upto(
                lv,
                range_views(tests@),
                iv,
                i as int,
            ),
        decreases lines@.len() - i,
    {
        let found = function_at_exec(lines, tests, &impls, i);
        match found {
            Some(f) => {
                let ghost fv = function_view(f);
                out.push(f);
                assert(out@.map_values(|f: SourceFunction| function_view(f)) =~= functions_upto(
                    lv,
                    range_views(tests@),
                    iv,
                    i as int,
                ).push(fv));
            },
            None => {},
        }
        i += 1;
    }
    out
}

/// The view of a function as plain values: name, visibility, line, body,
/// in a contract impl, documented.
pub type FnView = (Seq<char>, bool, int, Seq<char>, bool, bool);

/// The functions `ContractSource::parse` extracts from `text`.
pub open spec fn parsed_functions(text: Seq<char>) -> Seq<FnView> {
    let lines = lines_spec(text);
    functions_upto(
        lines,
        test_ranges_from(lines, 0),
        impl_ranges_upto(lines, lines.len() as int),
        lines.len() as int,
    )
}

/// The function views of a list of functions.
pub open spec fn function_views(fs: Seq<SourceFunction>) -> Seq<FnView> {
    fs.map_values(|f: SourceFunction| function_view(f))
}

impl ContractSource {
    /// The fields agree with what `parse` derives from `text`.
    pub open spec fn wf(self) -> bool {
        &&& line_views(self.lines@) == lines_spec(self.text@)
        &&& range_views(self.test_ranges@) == test_ranges_from(lines_spec(self.text@), 0)
        &&& function_views(self.functions@) == parsed_functions(self.text@)
    }

    /// Splits `text` into lines and extracts its test modules and functions.
    pub fn parse(path: &str, text: &str) -> (r: ContractSource)
        ensures
            r.path@ == path@,
            r.text@ == text@,
            r.wf(),
    {
        let lines = split_lines(text);
        let test_ranges = find_test_ranges(&lines);
        let functions = extract_functions(&lines, &test_ranges);
        proof {
            assert(lines@.len() == line_views(lines@).len());
        }
        ContractSource {
            path: to_owned_string(path),
            text: to_owned_string(text),
            lines,
            functions,
            test_ranges,
        }
    }
}


// ── Rules ─────────────────────────────────────────────────────────────────────

/// The check a rule runs.
#[derive(Debug, Clone, Copy, PartialEq, Eq, Structural)]
pub enum RuleCheck {
    MissingAuth,
    Reinitialization,
    UpgradeAuth,
    MockAuth,
    UncheckedArithmetic,
    OverflowChecksProfile,
    Unwrap,
    StringPanics,
    MissingTtl,
    UnboundedInstanceCollections,
    MissingEvents,
    ExternalCallBeforeEffects,
    UnboundedLoops,
    WeakRandomness,
    NoStd,
    UndocumentedEntryPoints,
}

/// The checks of the built-in library, in library order.
pub open spec fn library_checks() -> Seq<RuleCheck> {
    seq![
        RuleCheck::MissingAuth,
        RuleCheck::Reinitialization,
        RuleCheck::UpgradeAuth,
        RuleCheck::MockAuth,
        RuleCheck::UncheckedArithmetic,
        RuleCheck::OverflowChecksProfile,
        RuleCheck::Unwrap,
        RuleCheck::StringPanics,
        RuleCheck::MissingTtl,
        RuleCheck::UnboundedInstanceCollections,
        RuleCheck::MissingEvents,
        RuleCheck::ExternalCallBeforeEffects,
        RuleCheck::UnboundedLoops,
        RuleCheck::WeakRandomness,
        RuleCheck::NoStd,
        RuleCheck::UndocumentedEntryPoints,
    ]
}

/// The id of the rule that runs `c`.
pub open spec fn rule_id(c: RuleCheck) -> &'static str {
    match c {
        RuleCheck::MissingAuth => "SF-AUTH-001",
        RuleCheck::Reinitialization => "SF-AUTH-002",
        RuleCheck::UpgradeAuth => "SF-AUTH-003",
        RuleCheck::MockAuth => "SF-AUTH-004",
        RuleCheck::UncheckedArithmetic => "SF-ARITH-001",
        RuleCheck::OverflowChecksProfile => "SF-ARITH-002",
        RuleCheck::Unwrap => "SF-ERR-001",
        RuleCheck::StringPanics => "SF-ERR-002",
        RuleCheck::MissingTtl => "SF-STORE-001",
        RuleCheck::UnboundedInstanceCollections => "SF-STORE-002",
        RuleCheck::MissingEvents => "SF-EVT-001",
        RuleCheck::ExternalCallBeforeEffects => "SF-EXT-001",
        RuleCheck::UnboundedLoops => "SF-DOS-001",
        RuleCheck::WeakRandomness => "SF-RAND-001",
        RuleCheck::NoStd => "SF-BASE-001",
        RuleCheck::UndocumentedEntryPoints => "SF-DOC-001",
    }
}

/// The category of the rule that runs `c`.
pub open spec fn rule_category(c: RuleCheck) -> &'static str {
    match c {
        RuleCheck::MissingAuth => "access-control",
        RuleCheck::Reinitialization => "access-control",
        RuleCheck::UpgradeAuth => "access-control",
        RuleCheck::MockAuth => "access-control",
        RuleCheck::UncheckedArithmetic => "arithmetic",
        RuleCheck::OverflowChecksProfile => "arithmetic",
        RuleCheck::Unwrap => "error-handling",
        RuleCheck::StringPanics => "error-handling",
        RuleCheck::MissingTtl => "storage",
        RuleCheck::UnboundedInstanceCollections => "storage",
        RuleCheck::MissingEvents => "observability",
        RuleCheck::ExternalCallBeforeEffects => "external-calls",
        RuleCheck::UnboundedLoops => "denial-of-service",
        RuleCheck::WeakRandomness => "randomness",
        RuleCheck::NoStd => "baseline",
        RuleCheck::UndocumentedEntryPoints => "maintainability",
    }
}

/// The severity of the rule that runs `c`.
pub open spec fn rule_severity(c: RuleCheck) -> Severity {
    match c {
        RuleCheck::MissingAuth => Severity::Critical,
        RuleCheck::Reinitialization => Severity::High,
        RuleCheck::UpgradeAuth => Severity::Critical,
        RuleCheck::MockAuth => Severity::Critical,
        RuleCheck::UncheckedArithmetic => Severity::High,
        RuleCheck::OverflowChecksProfile => Severity::Medium,
        RuleCheck::Unwrap => Severity::Medium,
        RuleCheck::StringPanics => Severity::Low,
        RuleCheck::MissingTtl => Severity::Medium,
        RuleCheck::UnboundedInstanceCollections => Severity::Medium,
        RuleCheck::MissingEvents => Severity::Low,
        RuleCheck::ExternalCallBeforeEffects => Severity::High,
        RuleCheck::UnboundedLoops => Severity::Medium,
        RuleCheck::WeakRandomness => Severity::High,
        RuleCheck::NoStd => Severity::Low,
        RuleCheck::UndocumentedEntryPoints => Severity::Info,
    }
}

/// What the check `c` reports on the file `path` with contents `text`.
pub open spec fn check_hits(c: RuleCheck, path: Seq<char>, text: Seq<char>) -> Seq<
    (int, Option<Seq<char>>, Seq<char>),
> {
    let lines = lines_spec(text);
    let tests = test_ranges_from(lines, 0);
    let fs = parsed_functions(text);
    let n = lines.len() as int;
    match c {
        RuleCheck::MissingAuth => function_rule_hits(FunctionRule::MissingAuth, fs),
        RuleCheck::Reinitialization => function_rule_hits(FunctionRule::Reinitialization, fs),
        RuleCheck::UpgradeAuth => function_rule_hits(FunctionRule::UpgradeAuth, fs),
        RuleCheck::MockAuth => line_rule_hits(LineRule::MockAuth, lines, tests, fs, n),
        RuleCheck::UncheckedArithmetic => body_rule_hits(BodyRule::UncheckedArithmetic, fs),
        RuleCheck::OverflowChecksProfile => overflow_profile_hits(path, text, lines),
        RuleCheck::Unwrap => line_rule_hits(LineRule::Unwrap, lines, tests, fs, n),
        RuleCheck::StringPanics => line_rule_hits(LineRule::StringPanics, lines, tests, fs, n),
        RuleCheck::MissingTtl => missing_ttl_hits(text, lines, tests, fs),
        RuleCheck::UnboundedInstanceCollections => line_rule_hits(
            LineRule::UnboundedInstanceCollections,
            lines,
            tests,
            fs,
            n,
        ),
        RuleCheck::MissingEvents => function_rule_hits(FunctionRule::MissingEvents, fs),
        RuleCheck::ExternalCallBeforeEffects => external_call_hits(fs),
        RuleCheck::UnboundedLoops => body_rule_hits(BodyRule::UnboundedLoops, fs),
        RuleCheck::WeakRandomness => line_rule_hits(LineRule::WeakRandomness, lines, tests, fs, n),
        RuleCheck::NoStd => no_std_hits(path, text),
        RuleCheck::UndocumentedEntryPoints => function_rule_hits(
            FunctionRule::UndocumentedEntryPoint,
            fs,
        ),
    }
}

/// Runs the check `c` on a parsed source.
pub fn run_check(c: RuleCheck, src: &ContractSource) -> (r: Vec<Violation>)
    requires
        src.wf(),
    ensures
        violation_views(r@) == check_hits(c, src.path@, src.text@),
{
    match c {
        RuleCheck::MissingAuth => check_function_rule(FunctionRule::MissingAuth, src),
        RuleCheck::Reinitialization => check_function_rule(FunctionRule::Reinitialization, src),
        RuleCheck::UpgradeAuth => check_function_rule(FunctionRule::UpgradeAuth, src),
        RuleCheck::MockAuth => check_line_rule(LineRule::MockAuth, src),
        RuleCheck::UncheckedArithmetic => check_body_rule(BodyRule::UncheckedArithmetic, src),
        RuleCheck::OverflowChecksProfile => check_overflow_profile(src),
        RuleCheck::Unwrap => check_line_rule(LineRule::Unwrap, src),
        RuleCheck::StringPanics => check_line_rule(LineRule::StringPanics, src),
        RuleCheck::MissingTtl => check_missing_ttl(src),
        RuleCheck::UnboundedInstanceCollections => check_line_rule(
            LineRule::UnboundedInstanceCollections,
            src,
        ),
        RuleCheck::MissingEvents => check_function_rule(FunctionRule::MissingEvents, src),
        RuleCheck::ExternalCallBeforeEffects => check_external_calls(src),
        RuleCheck::UnboundedLoops => check_body_rule(BodyRule::UnboundedLoops, src),
        RuleCheck::WeakRandomness => check_line_rule(LineRule::WeakRandomness, src),
        RuleCheck::NoStd => check_no_std(src),
        RuleCheck::UndocumentedEntryPoints => check_function_rule(
            FunctionRule::UndocumentedEntryPoint,
            src,
        ),
    }
}

/// A best practice the analyzer enforces.
#[derive(Debug, Clone)]
pub struct BestPracticeRule {
    pub id: &'static str,
    pub title: &'static str,
    pub category: &'static str,
    pub severity: Severity,
    /// Industry references, e.g. `OWASP-SC01:2025`, `CWE-862`.
    pub references: Vec<&'static str>,
    pub rationale: &'static str,
    pub recommendation: &'static str,
    pub check: RuleCheck,
}

/// The title of the rule that runs `c`.
pub open spec fn rule_title(c: RuleCheck) -> &'static str {
    match c {
        RuleCheck::MissingAuth => "State-changing entry point without authorization",
        RuleCheck::Reinitialization => "Initializer can be called more than once",
        RuleCheck::UpgradeAuth => "Contract upgrade without authorization",
        RuleCheck::MockAuth => "Authorization mocking outside tests",
        RuleCheck::UncheckedArithmetic => "Unchecked arithmetic on value-bearing variables",
        RuleCheck::OverflowChecksProfile => "Release profile without overflow checks",
        RuleCheck::Unwrap => "unwrap()/expect() in contract code",
        RuleCheck::StringPanics => "String panics instead of typed contract errors",
        RuleCheck::MissingTtl => "Long-lived storage without TTL management",
        RuleCheck::UnboundedInstanceCollections => "Unbounded collection stored in instance storage",
        RuleCheck::MissingEvents => "State change without an event",
        RuleCheck::ExternalCallBeforeEffects => "State written after external contract call",
        RuleCheck::UnboundedLoops => "Unbounded iteration in storage-backed entry point",
        RuleCheck::WeakRandomness => "Ledger data used as randomness",
        RuleCheck::NoStd => "Contract crate does not declare #![no_std]",
        RuleCheck::UndocumentedEntryPoints => "Undocumented public entry point",
    }
}

/// The references of the rule that runs `c`.
pub open spec fn rule_references(c: RuleCheck) -> Seq<&'static str> {
    match c {
        RuleCheck::MissingAuth => seq!["OWASP-SC01:2025", "CWE-862"],
        RuleCheck::Reinitialization => seq!["OWASP-SC01:2025", "CWE-665"],
        RuleCheck::UpgradeAuth => seq!["OWASP-SC01:2025", "CWE-284"],
        RuleCheck::MockAuth => seq!["CWE-489"],
        RuleCheck::UncheckedArithmetic => seq!["OWASP-SC08:2025", "CWE-190", "CWE-191"],
        RuleCheck::OverflowChecksProfile => seq!["OWASP-SC08:2025", "CWE-190"],
        RuleCheck::Unwrap => seq!["OWASP-SC05:2025", "CWE-248"],
        RuleCheck::StringPanics => seq!["OWASP-SC05:2025", "CWE-755"],
        RuleCheck::MissingTtl => seq!["CWE-400"],
        RuleCheck::UnboundedInstanceCollections => seq!["OWASP-SC10:2025", "CWE-770"],
        RuleCheck::MissingEvents => seq!["CWE-778"],
        RuleCheck::ExternalCallBeforeEffects => seq!["OWASP-SC05:2025", "CWE-841"],
        RuleCheck::UnboundedLoops => seq!["OWASP-SC10:2025", "CWE-834"],
        RuleCheck::WeakRandomness => seq!["OWASP-SC09:2025", "CWE-338"],
        RuleCheck::NoStd => seq!["CWE-1104"],
        RuleCheck::UndocumentedEntryPoints => seq!["CWE-1059"],
    }
}

/// The recommendation of the rule that runs `c`.
pub open spec fn rule_recommendation(c: RuleCheck) -> &'static str {
    match c {
        RuleCheck::MissingAuth => "Call `address.require_auth()` (or `require_auth_for_args`) for the acting account before mutating storage.",
        RuleCheck::Reinitialization => "Guard initialization with `if env.storage().instance().has(&DataKey::Admin) { panic_with_error!(...) }`, or use `__constructor`.",
        RuleCheck::UpgradeAuth => "Load the stored admin and call `admin.require_auth()` before `update_current_contract_wasm`.",
        RuleCheck::MockAuth => "Move auth mocking into `#[cfg(test)]` modules only.",
        RuleCheck::UncheckedArithmetic => "Use `checked_add`/`checked_sub`/`checked_mul` and return a contract error on overflow.",
        RuleCheck::OverflowChecksProfile => "Set `overflow-checks = true` under `[profile.release]` in Cargo.toml.",
        RuleCheck::Unwrap => "Return `Result<_, ContractError>` or use `panic_with_error!` with a `#[contracterror]` enum.",
        RuleCheck::StringPanics => "Define a `#[contracterror]` enum and use `panic_with_error!(&env, Error::X)`.",
        RuleCheck::MissingTtl => "Call `extend_ttl` on instance and persistent entries when they are written or read.",
        RuleCheck::UnboundedInstanceCollections => "Store per-item entries under persistent keys (e.g. `DataKey::Item(id)`) instead of one growing collection.",
        RuleCheck::MissingEvents => "Publish an event (`env.events().publish(...)`) from every state-changing entry point.",
        RuleCheck::ExternalCallBeforeEffects => "Update storage before calling other contracts, and validate their results.",
        RuleCheck::UnboundedLoops => "Bound loops with explicit limits or paginate over keys.",
        RuleCheck::WeakRandomness => "Use `env.prng()` for non-critical randomness, or a commit-reveal/oracle scheme for value-bearing outcomes.",
        RuleCheck::NoStd => "Add `#![no_std]` to the contract crate root.",
        RuleCheck::UndocumentedEntryPoints => "Add `///` docs describing who may call the function and what it changes.",
    }
}

/// A well-formed rule: its id, title, category, severity, references and
/// recommendation are those of its check, and it names at least one
/// reference and a recommendation.
pub open spec fn rule_fits_check(r: BestPracticeRule) -> bool {
    &&& r.id == rule_id(r.check)
    &&& r.title == rule_title(r.check)
    &&& r.category == rule_category(r.check)
    &&& r.severity == rule_severity(r.check)
    &&& r.references@ == rule_references(r.check)
    &&& r.recommendation == rule_recommendation(r.check)
    &&& r.references@.len() > 0
    &&& r.recommendation@.len() > 0
}

/// The rule that runs `check`.
fn rule_for(check: RuleCheck) -> (r: BestPracticeRule)
    ensures
        r.check == check,
        rule_fits_check(r),
{
    let r = match check {
        RuleCheck::MissingAuth => {
            let recommendation = "Call `address.require_auth()` (or `require_auth_for_args`) for the acting account before mutating storage.";
            proof {
                reveal_strlit("Call `address.require_auth()` (or `require_auth_for_args`) for the acting account before mutating storage.");
            }
            BestPracticeRule {
                id: "SF-AUTH-001",
                title: "State-changing entry point without authorization",
                category: "access-control",
                severity: Severity::Critical,
                references: vec!["OWASP-SC01:2025", "CWE-862"],
                rationale: "Any account can invoke a public function that writes storage without require_auth(), taking over balances or configuration.",
                recommendation,
                check,
            }
        },
        RuleCheck::Reinitialization => {
            let recommendation = "Guard initialization with `if env.storage().instance().has(&DataKey::Admin) { panic_with_error!(...) }`, or use `__constructor`.";
            proof {
                reveal_strlit("Guard initialization with `if env.storage().instance().has(&DataKey::Admin) { panic_with_error!(...) }`, or use `__constructor`.");
            }
            BestPracticeRule {
                id: "SF-AUTH-002",
                title: "Initializer can be called more than once",
                category: "access-control",
                severity: Severity::High,
                references: vec!["OWASP-SC01:2025", "CWE-665"],
                rationale: "A re-callable initializer lets an attacker overwrite the admin or core configuration after deployment.",
                recommendation,
                check,
            }
        },
        RuleCheck::UpgradeAuth => {
            let recommendation = "Load the stored admin and call `admin.require_auth()` before `update_current_contract_wasm`.";
            proof {
                reveal_strlit("Load the stored admin and call `admin.require_auth()` before `update_current_contract_wasm`.");
            }
            BestPracticeRule {
                id: "SF-AUTH-003",
                title: "Contract upgrade without authorization",
                category: "access-control",
                severity: Severity::Critical,
                references: vec!["OWASP-SC01:2025", "CWE-284"],
                rationale: "Unauthenticated calls to update_current_contract_wasm let anyone replace the contract code.",
                recommendation,
                check,
            }
        },
        RuleCheck::MockAuth => {
            let recommendation = "Move auth mocking into `#[cfg(test)]` modules only.";
            proof {
                reveal_strlit("Move auth mocking into `#[cfg(test)]` modules only.");
            }
            BestPracticeRule {
                id: "SF-AUTH-004",
                title: "Authorization mocking outside tests",
                category: "access-control",
                severity: Severity::Critical,
                references: vec!["CWE-489"],
                rationale: "mock_all_auths()/mock_auths() disable signature checks and must never ship in contract code.",
                recommendation,
                check,
            }
        },
        RuleCheck::UncheckedArithmetic => {
            let recommendation = "Use `checked_add`/`checked_sub`/`checked_mul` and return a contract error on overflow.";
            proof {
                reveal_strlit("Use `checked_add`/`checked_sub`/`checked_mul` and return a contract error on overflow.");
            }
            BestPracticeRule {
                id: "SF-ARITH-001",
                title: "Unchecked arithmetic on value-bearing variables",
                category: "arithmetic",
                severity: Severity::High,
                references: vec!["OWASP-SC08:2025", "CWE-190", "CWE-191"],
                rationale: "Overflow or underflow on balances and supplies can mint value or wrap balances.",
                recommendation,
                check,
            }
        },
        RuleCheck::OverflowChecksProfile => {
            let recommendation = "Set `overflow-checks = true` under `[profile.release]` in Cargo.toml.";
            proof {
                reveal_strlit("Set `overflow-checks = true` under `[profile.release]` in Cargo.toml.");
            }
            BestPracticeRule {
                id: "SF-ARITH-002",
                title: "Release profile without overflow checks",
                category: "arithmetic",
                severity: Severity::Medium,
                references: vec!["OWASP-SC08:2025", "CWE-190"],
                rationale: "Without overflow-checks, integer overflow silently wraps in release WASM builds.",
                recommendation,
                check,
            }
        },
        RuleCheck::Unwrap => {
            let recommendation = "Return `Result<_, ContractError>` or use `panic_with_error!` with a `#[contracterror]` enum.";
            proof {
                reveal_strlit("Return `Result<_, ContractError>` or use `panic_with_error!` with a `#[contracterror]` enum.");
            }
            BestPracticeRule {
                id: "SF-ERR-001",
                title: "unwrap()/expect() in contract code",
                category: "error-handling",
                severity: Severity::Medium,
                references: vec!["OWASP-SC05:2025", "CWE-248"],
                rationale: "Panics from unwrap/expect abort with opaque errors that clients cannot handle or distinguish.",
                recommendation,
                check,
            }
        },
        RuleCheck::StringPanics => {
            let recommendation = "Define a `#[contracterror]` enum and use `panic_with_error!(&env, Error::X)`.";
            proof {
                reveal_strlit("Define a `#[contracterror]` enum and use `panic_with_error!(&env, Error::X)`.");
            }
            BestPracticeRule {
                id: "SF-ERR-002",
                title: "String panics instead of typed contract errors",
                category: "error-handling",
                severity: Severity::Low,
                references: vec!["OWASP-SC05:2025", "CWE-755"],
                rationale: "String panics bloat the WASM and do not surface stable error codes to callers.",
                recommendation,
                check,
            }
        },
        RuleCheck::MissingTtl => {
            let recommendation = "Call `extend_ttl` on instance and persistent entries when they are written or read.";
            proof {
                reveal_strlit("Call `extend_ttl` on instance and persistent entries when they are written or read.");
            }
            BestPracticeRule {
                id: "SF-STORE-001",
                title: "Long-lived storage without TTL management",
                category: "storage",
                severity: Severity::Medium,
                references: vec!["CWE-400"],
                rationale: "Persistent and instance entries are archived when their TTL expires, making the contract unusable until restored.",
                recommendation,
                check,
            }
        },
        RuleCheck::UnboundedInstanceCollections => {
            let recommendation = "Store per-item entries under persistent keys (e.g. `DataKey::Item(id)`) instead of one growing collection.";
            proof {
                reveal_strlit("Store per-item entries under persistent keys (e.g. `DataKey::Item(id)`) instead of one growing collection.");
            }
            BestPracticeRule {
                id: "SF-STORE-002",
                title: "Unbounded collection stored in instance storage",
                category: "storage",
                severity: Severity::Medium,
                references: vec!["OWASP-SC10:2025", "CWE-770"],
                rationale: "Instance storage is loaded on every call; growing Vec/Map values there raise costs until calls exceed resource limits.",
                recommendation,
                check,
            }
        },
        RuleCheck::MissingEvents => {
            let recommendation = "Publish an event (`env.events().publish(...)`) from every state-changing entry point.";
            proof {
                reveal_strlit("Publish an event (`env.events().publish(...)`) from every state-changing entry point.");
            }
            BestPracticeRule {
                id: "SF-EVT-001",
                title: "State change without an event",
                category: "observability",
                severity: Severity::Low,
                references: vec!["CWE-778"],
                rationale: "Without events, indexers, monitors, and incident responders cannot observe state changes.",
                recommendation,
                check,
            }
        },
        RuleCheck::ExternalCallBeforeEffects => {
            let recommendation = "Update storage before calling other contracts, and validate their results.";
            proof {
                reveal_strlit("Update storage before calling other contracts, and validate their results.");
            }
            BestPracticeRule {
                id: "SF-EXT-001",
                title: "State written after external contract call",
                category: "external-calls",
                severity: Severity::High,
                references: vec!["OWASP-SC05:2025", "CWE-841"],
                rationale: "Writing state after calling another contract breaks checks-effects-interactions and invites re-entrancy-style inconsistencies.",
                recommendation,
                check,
            }
        },
        RuleCheck::UnboundedLoops => {
            let recommendation = "Bound loops with explicit limits or paginate over keys.";
            proof {
                reveal_strlit("Bound loops with explicit limits or paginate over keys.");
            }
            BestPracticeRule {
                id: "SF-DOS-001",
                title: "Unbounded iteration in storage-backed entry point",
                category: "denial-of-service",
                severity: Severity::Medium,
                references: vec!["OWASP-SC10:2025", "CWE-834"],
                rationale: "Loops over data that grows with usage eventually exceed Soroban CPU and read limits, bricking the function.",
                recommendation,
                check,
            }
        },
        RuleCheck::WeakRandomness => {
            let recommendation = "Use `env.prng()` for non-critical randomness, or a commit-reveal/oracle scheme for value-bearing outcomes.";
            proof {
                reveal_strlit("Use `env.prng()` for non-critical randomness, or a commit-reveal/oracle scheme for value-bearing outcomes.");
            }
            BestPracticeRule {
                id: "SF-RAND-001",
                title: "Ledger data used as randomness",
                category: "randomness",
                severity: Severity::High,
                references: vec!["OWASP-SC09:2025", "CWE-338"],
                rationale: "Ledger timestamp and sequence are known to validators and submitters in advance.",
                recommendation,
                check,
            }
        },
        RuleCheck::NoStd => {
            let recommendation = "Add `#![no_std]` to the contract crate root.";
            proof {
                reveal_strlit("Add `#![no_std]` to the contract crate root.");
            }
            BestPracticeRule {
                id: "SF-BASE-001",
                title: "Contract crate does not declare #![no_std]",
                category: "baseline",
                severity: Severity::Low,
                references: vec!["CWE-1104"],
                rationale: "Soroban contracts are expected to be no_std; linking std increases WASM size and attack surface.",
                recommendation,
                check,
            }
        },
        RuleCheck::UndocumentedEntryPoints => {
            let recommendation = "Add `///` docs describing who may call the function and what it changes.";
            proof {
                reveal_strlit("Add `///` docs describing who may call the function and what it changes.");
            }
            BestPracticeRule {
                id: "SF-DOC-001",
                title: "Undocumented public entry point",
                category: "maintainability",
                severity: Severity::Info,
                references: vec!["CWE-1059"],
                rationale: "Undocumented entry points make authorization and invariants harder to review.",
                recommendation,
                check,
            }
        },
    };
    assert(r.references@ =~= rule_references(check));
    r
}

/// The built-in best-practices library.
pub fn rule_library() -> (r: Vec<BestPracticeRule>)
    ensures
        r@.len() == library_checks().len(),
        forall|k: int| 0 <= k < r@.len() ==> (#[trigger] r@[k]).check == library_checks()[k],
        forall|k: int| 0 <= k < r@.len() ==> rule_fits_check(#[trigger] r@[k]),
{
    let mut out: Vec<BestPracticeRule> = Vec::new();
    out.push(rule_for(RuleCheck::MissingAuth));
    out.push(rule_for(RuleCheck::Reinitialization));
    out.push(rule_for(RuleCheck::UpgradeAuth));
    out.push(rule_for(RuleCheck::MockAuth));
    out.push(rule_for(RuleCheck::UncheckedArithmetic));
    out.push(rule_for(RuleCheck::OverflowChecksProfile));
    out.push(rule_for(RuleCheck::Unwrap));
    out.push(rule_for(RuleCheck::StringPanics));
    out.push(rule_for(RuleCheck::MissingTtl));
    out.push(rule_for(RuleCheck::UnboundedInstanceCollections));
    out.push(rule_for(RuleCheck::MissingEvents));
    out.push(rule_for(RuleCheck::ExternalCallBeforeEffects));
    out.push(rule_for(RuleCheck::UnboundedLoops));
    out.push(rule_for(RuleCheck::WeakRandomness));
    out.push(rule_for(RuleCheck::NoStd));
    out.push(rule_for(RuleCheck::UndocumentedEntryPoints));
    assert(out@.len() == library_checks().len());
    out
}

impl BestPracticeRule {
    /// Runs the rule's check on a parsed source.
    pub fn run(&self, src: &ContractSource) -> (r: Vec<Violation>)
        requires
            src.wf(),
        ensures
            violation_views(r@) == check_hits(self.check, src.path@, src.text@),
    {
        run_check(self.check, src)
    }
}


// ── Analysis ──────────────────────────────────────────────────────────────────

/// A finding of one rule at one place.
#[derive(Debug, Clone)]
pub struct Finding {
    pub fingerprint: String,
    pub rule_id: String,
    pub title: String,
    pub category: String,
    pub severity: Severity,
    pub file: String,
    pub line: usize,
    pub function: Option<String>,
    pub evidence: String,
    pub references: Vec<String>,
    pub recommendation: String,
}

/// A finding silenced by an inline `starforge-allow` comment.
#[derive(Debug, Clone)]
pub struct SuppressedFinding {
    pub rule_id: String,
    pub file: String,
    pub line: usize,
    pub justification: String,
}

/// A finding as plain values: fingerprint, rule id, category, severity, file,
/// line, function, evidence, title, references, recommendation.
pub type FindingView = (
    Seq<char>,
    Seq<char>,
    Seq<char>,
    Severity,
    Seq<char>,
    int,
    Option<Seq<char>>,
    Seq<char>,
    Seq<char>,
    Seq<Seq<char>>,
    Seq<char>,
);

/// The texts of a list of references.
pub open spec fn reference_views(v: Seq<&'static str>) -> Seq<Seq<char>> {
    v.map_values(|s: &'static str| s@)
}

/// A suppressed finding as plain values: rule id, file, line, justification.
pub type SuppressedView = (Seq<char>, Seq<char>, int, Seq<char>);

pub open spec fn opt_view(o: Option<String>) -> Option<Seq<char>> {
    match o {
        Some(s) => Some(s@),
        None => None,
    }
}

pub open spec fn finding_view(f: Finding) -> FindingView {
    (
        f.fingerprint@,
        f.rule_id@,
        f.category@,
        f.severity,
        f.file@,
        f.line as int,
        opt_view(f.function),
        f.evidence@,
        f.title@,
        string_views(f.references@),
        f.recommendation@,
    )
}

pub open spec fn finding_views(fs: Seq<Finding>) -> Seq<FindingView> {
    fs.map_values(|f: Finding| finding_view(f))
}

pub open spec fn suppressed_view(s: SuppressedFinding) -> SuppressedView {
    (s.rule_id@, s.file@, s.line as int, s.justification@)
}

pub open spec fn suppressed_views(ss: Seq<SuppressedFinding>) -> Seq<SuppressedView> {
    ss.map_values(|s: SuppressedFinding| suppressed_view(s))
}

/// The function name a fingerprint hashes: the name, or nothing.
pub open spec fn name_or_empty(o: Option<Seq<char>>) -> Seq<char> {
    match o {
        Some(n) => n,
        None => Seq::empty(),
    }
}

/// Some finding in `fs` has fingerprint `fp`.
pub open spec fn has_fingerprint(fs: Seq<FindingView>, fp: Seq<char>) -> bool {
    exists|k: int| 0 <= k < fs.len() && (#[trigger] fs[k]).0 == fp
}

/// What one rule contributes for one file, given its violations `vs`: a
/// violation with a matching `starforge-allow` comment is suppressed; any
/// other becomes a finding unless the rule already reported one with the same
/// fingerprint in this file.
pub open spec fn rule_pass(
    c: RuleCheck,
    path: Seq<char>,
    text: Seq<char>,
    vs: Seq<(int, Option<Seq<char>>, Seq<char>)>,
) -> (Seq<FindingView>, Seq<SuppressedView>)
    decreases vs.len(),
{
    if vs.len() == 0 {
        (Seq::empty(), Seq::empty())
    } else {
        let prev = rule_pass(c, path, text, vs.drop_last());
        let v = vs.last();
        let id = rule_id(c)@;
        match suppression_spec(lines_spec(text), v.0, id) {
            Some(j) => (prev.0, prev.1.push((id, path, v.0, j))),
            None => {
                let fp = fingerprint_spec(id, path, name_or_empty(v.1), v.2);
                if has_fingerprint(prev.0, fp) {
                    prev
                } else {
                    (
                        prev.0.push(
                            (
                                fp,
                                id,
                                rule_category(c)@,
                                rule_severity(c),
                                path,
                                v.0,
                                v.1,
                                v.2,
                                rule_title(c)@,
                                reference_views(rule_references(c)),
                                rule_recommendation(c)@,
                            ),
                        ),
                        prev.1,
                    )
                }
            },
        }
    }
}

/// What the first `k` rules contribute for one file.
pub open spec fn file_pass(rules: Seq<RuleCheck>, path: Seq<char>, text: Seq<char>, k: int) -> (
    Seq<FindingView>,
    Seq<SuppressedView>,
)
    decreases k,
{
    if k <= 0 || k > rules.len() {
        (Seq::empty(), Seq::empty())
    } else {
        let prev = file_pass(rules, path, text, k - 1);
        let c = rules[k - 1];
        let here = rule_pass(c, path, text, check_hits(c, path, text));
        (prev.0 + here.0, prev.1 + here.1)
    }
}

/// What the rules contribute for the first `k` files, in file order.
pub open spec fn files_pass(rules: Seq<RuleCheck>, files: Seq<(Seq<char>, Seq<char>)>, k: int) -> (
    Seq<FindingView>,
    Seq<SuppressedView>,
)
    decreases k,
{
    if k <= 0 || k > files.len() {
        (Seq::empty(), Seq::empty())
    } else {
        let prev = files_pass(rules, files, k - 1);
        let here = file_pass(rules, files[k - 1].0, files[k - 1].1, rules.len() as int);
        (prev.0 + here.0, prev.1 + here.1)
    }
}

proof fn lemma_finding_views_push(fs: Seq<Finding>, f: Finding)
    ensures
        finding_views(fs.push(f)) == finding_views(fs).push(finding_view(f)),
{
    assert(finding_views(fs.push(f)) =~= finding_views(fs).push(finding_view(f)));
}

proof fn lemma_suppressed_views_push(ss: Seq<SuppressedFinding>, x: SuppressedFinding)
    ensures
        suppressed_views(ss.push(x)) == suppressed_views(ss).push(suppressed_view(x)),
{
    assert(suppressed_views(ss.push(x)) =~= suppressed_views(ss).push(suppressed_view(x)));
}

/// Whether some finding has fingerprint `fp`.
fn has_fingerprint_exec(fs: &Vec<Finding>, fp: &str) -> (r: bool)
    ensures
        r == has_fingerprint(finding_views(fs@), fp@),
{
    let ghost fv = finding_views(fs@);
    let mut k: usize = 0;
    while k < fs.len()
        invariant
            fv == finding_views(fs@),
            k <= fs@.len(),
            forall|j: int| 0 <= j < k ==> (#[trigger] fv[j]).0 != fp@,
        decreases fs@.len() - k,
    {
        assert(fv[k as int] == finding_view(fs@[k as int]));
        if crate::text::str_eq(fs[k].fingerprint.as_str(), fp) {
            return true;
        }
        k += 1;
    }
    false
}

/// Owned copies of the rule's references.
fn owned_references(refs: &Vec<&'static str>) -> (r: Vec<String>)
    ensures
        r@.len() == refs@.len(),
        forall|k: int| 0 <= k < r@.len() ==> (#[trigger] r@[k])@ == refs@[k]@,
        string_views(r@) == reference_views(refs@),
{
    let mut out: Vec<String> = Vec::new();
    let mut k: usize = 0;
    while k < refs.len()
        invariant
            k <= refs@.len(),
            out@.len() == k,
            forall|j: int| 0 <= j < k ==> (#[trigger] out@[j])@ == refs@[j]@,
        decreases refs@.len() - k,
    {
        out.push(to_owned_string(refs[k]));
        k += 1;
    }
    assert(string_views(out@) =~= reference_views(refs@));
    out
}

/// Turns one rule's violations on one file into findings and suppressions.
fn rule_findings(
    rule: &BestPracticeRule,
    src: &ContractSource,
    vs: Vec<Violation>,
    findings: &mut Vec<Finding>,
    suppressed: &mut Vec<SuppressedFinding>,
)
    requires
        src.wf(),
        rule_fits_check(*rule),
    ensures
        finding_views(final(findings)@) == finding_views(old(findings)@) + rule_pass(
            rule.check,
            src.path@,
            src.text@,
            violation_views(vs@),
        ).0,
        suppressed_views(final(suppressed)@) == suppressed_views(old(suppressed)@) + rule_pass(
            rule.check,
            src.path@,
            src.text@,
            violation_views(vs@),
        ).1,
{
    let ghost vv = violation_views(vs@);
    let ghost f0 = finding_views(findings@);
    let ghost s0 = suppressed_views(suppressed@);
    let mut here: Vec<Finding> = Vec::new();
    let mut quiet: Vec<SuppressedFinding> = Vec::new();
    let mut k: usize = 0;
    while k < vs.len()
        invariant
            src.wf(),
            rule_fits_check(*rule),
            vv == violation_views(vs@),
            k <= vs@.len(),
            finding_views(here@) == rule_pass(rule.check, src.path@, src.text@, vv.take(k as int)).0,
            suppressed_views(quiet@) == rule_pass(rule.check, src.path@, src.text@, vv.take(k as int)).1,
        decreases vs@.len() - k,
    {
        let v = &vs[k];
        assert(vv.take(k + 1).drop_last() =~= vv.take(k as int));
        assert(vv.take(k + 1).last() == vv[k as int]);
        assert(vv[k as int] == crate::security::checks::violation_view(vs@[k as int]));
        match suppression(src, v.line, rule.id) {
            Some(justification) => {
                let x = SuppressedFinding {
                    rule_id: to_owned_string(rule.id),
                    file: to_owned_string(src.path.as_str()),
                    line: v.line,
                    justification,
                };
                proof {
                    lemma_suppressed_views_push(quiet@, x);
                }
                quiet.push(x);
            },
            None => {
                let fname: &str = match &v.function {
                    Some(n) => n.as_str(),
                    None => "",
                };
                proof {
                    reveal_strlit("");
                }
                let fp = fingerprint(rule.id, src.path.as_str(), fname, v.evidence.as_str());
                if !has_fingerprint_exec(&here, fp.as_str()) {
                    let f = Finding {
                        fingerprint: fp,
                        rule_id: to_owned_string(rule.id),
                        title: to_owned_string(rule.title),
                        category: to_owned_string(rule.category),
                        severity: rule.severity,
                        file: to_owned_string(src.path.as_str()),
                        line: v.line,
                        function: match &v.function {
                            Some(n) => Some(to_owned_string(n.as_str())),
                            None => None,
                        },
                        evidence: to_owned_string(v.evidence.as_str()),
                        references: owned_references(&rule.references),
                        recommendation: to_owned_string(rule.recommendation),
                    };
                    proof {
                        lemma_finding_views_push(here@, f);
                    }
                    here.push(f);
                }
            },
        }
        k += 1;
    }
    assert(vv.take(k as int) =~= vv);
    let ghost h = here@;
    let ghost q = quiet@;
    findings.append(&mut here);
    suppressed.append(&mut quiet);
    assert(finding_views(findings@) =~= f0 + finding_views(h));
    assert(suppressed_views(suppressed@) =~= s0 + suppressed_views(q));
}


/// Options controlling which rules run.
#[derive(Debug, Clone, Default)]
pub struct AnalyzerOptions {
    /// Only report rules at or above this severity.
    pub min_severity: Option<Severity>,
    /// Rule ids to skip.
    pub disabled_rules: Vec<String>,
}

/// Whether the options keep the rule that runs `c`.
pub open spec fn rule_selected(min: Option<Severity>, disabled: Seq<String>, c: RuleCheck) -> bool {
    &&& match min {
        Some(m) => severity_level(rule_severity(c)) >= severity_level(m),
        None => true,
    }
    &&& !(exists|j: int| 0 <= j < disabled.len() && (#[trigger] disabled[j])@ == rule_id(c)@)
}

/// The library checks among the first `k` that the options keep, in order.
pub open spec fn selected_checks(min: Option<Severity>, disabled: Seq<String>, k: int) -> Seq<
    RuleCheck,
>
    decreases k,
{
    if k <= 0 || k > library_checks().len() {
        Seq::empty()
    } else {
        let prev = selected_checks(min, disabled, k - 1);
        if rule_selected(min, disabled, library_checks()[k - 1]) {
            prev.push(library_checks()[k - 1])
        } else {
            prev
        }
    }
}

/// The checks of a list of rules.
pub open spec fn rule_checks(rules: Seq<BestPracticeRule>) -> Seq<RuleCheck> {
    rules.map_values(|r: BestPracticeRule| r.check)
}

/// The rule engine.
pub struct BestPracticesAnalyzer {
    rules: Vec<BestPracticeRule>,
}

impl BestPracticesAnalyzer {
    /// The checks the analyzer runs, in order.
    pub closed spec fn checks(&self) -> Seq<RuleCheck> {
        rule_checks(self.rules@)
    }

    /// Every rule fits its check.
    #[verifier::type_invariant]
    closed spec fn well_formed(&self) -> bool {
        forall|k: int| 0 <= k < self.rules@.len() ==> rule_fits_check(#[trigger] self.rules@[k])
    }

    /// The library rules that the options keep: at or above the minimum
    /// severity and not disabled, in library order.
    pub fn new(options: AnalyzerOptions) -> (r: BestPracticesAnalyzer)
        ensures
            r.checks() == selected_checks(
                options.min_severity,
                options.disabled_rules@,
                library_checks().len() as int,
            ),
    {
        let library = rule_library();
        let ghost lib = library@;
        let mut rules: Vec<BestPracticeRule> = Vec::new();
        let mut k: usize = 0;
        while k < library.len()
            invariant
                k <= library@.len(),
                library@.len() == library_checks().len(),
                forall|j: int| 0 <= j < library@.len() ==> (#[trigger] library@[j]).check
                    == library_checks()[j],
                forall|j: int| 0 <= j < library@.len() ==> rule_fits_check(#[trigger] library@[j]),
                forall|j: int| 0 <= j < rules@.len() ==> rule_fits_check(#[trigger] rules@[j]),
                rule_checks(rules@) == selected_checks(
                    options.min_severity,
                    options.disabled_rules@,
                    k as int,
                ),
            decreases library@.len() - k,
        {
            let rule = &library[k];
            let keep_level = match options.min_severity {
                Some(m) => rule.severity.level() >= m.level(),
                None => true,
            };
            let mut disabled = false;
            let mut j: usize = 0;
            while j < options.disabled_rules.len()
                invariant
                    j <= options.disabled_rules@.len(),
                    disabled <==> exists|i: int|
                        0 <= i < j && (#[trigger] options.disabled_rules@[i])@ == rule.id@,
                decreases options.disabled_rules@.len() - j,
            {
                if crate::text::str_eq(options.disabled_rules[j].as_str(), rule.id) {
                    disabled = true;
                }
                j += 1;
            }
            if keep_level && !disabled {
                let ghost before = rules@;
                rules.push(rule.clone_rule());
                assert(rule_checks(rules@) =~= rule_checks(before).push(rule.check));
            }
            k += 1;
        }
        BestPracticesAnalyzer { rules }
    }

    /// The rules in the order they run.
    pub fn rules(&self) -> (r: &[BestPracticeRule])
        ensures
            rule_checks(r@) == self.checks(),
            forall|k: int| 0 <= k < r@.len() ==> rule_fits_check(#[trigger] r@[k]),
    {
        proof {
            use_type_invariant(self);
        }
        self.rules.as_slice()
    }
}

impl Default for BestPracticesAnalyzer {
    fn default() -> (r: BestPracticesAnalyzer)
        ensures
            r.checks() == library_checks(),
    {
        let r = BestPracticesAnalyzer::new(AnalyzerOptions { min_severity: None, disabled_rules: Vec::new() });
        proof {
            lemma_all_selected(library_checks().len() as int);
        }
        r
    }
}

proof fn lemma_selected_prefix(min: Option<Severity>, disabled: Seq<String>, k: int)
    requires
        0 <= k <= library_checks().len(),
    ensures
        selected_checks(min, disabled, k) == library_checks().take(k).filter(
            |c: RuleCheck| rule_selected(min, disabled, c),
        ),
    decreases k,
{
    reveal(Seq::filter);
    let pred = |c: RuleCheck| rule_selected(min, disabled, c);
    if k > 0 {
        lemma_selected_prefix(min, disabled, k - 1);
        let t = library_checks().take(k);
        assert(t.drop_last() =~= library_checks().take(k - 1));
        assert(t.last() == library_checks()[k - 1]);
    } else {
        assert(library_checks().take(0) =~= Seq::<RuleCheck>::empty());
    }
}

/// An analyzer built from options runs exactly the library rules that the
/// options keep (at or above the minimum severity, id not disabled), in
/// library order: the library filtered by the options.
pub proof fn law_analyzer_runs_filtered_library(min: Option<Severity>, disabled: Seq<String>)
    ensures
        selected_checks(min, disabled, library_checks().len() as int) == library_checks().filter(
            |c: RuleCheck| rule_selected(min, disabled, c),
        ),
{
    lemma_selected_prefix(min, disabled, library_checks().len() as int);
    assert(library_checks().take(library_checks().len() as int) =~= library_checks());
}

proof fn lemma_all_selected(k: int)
    requires
        0 <= k <= library_checks().len(),
    ensures
        selected_checks(None, Seq::<String>::empty(), k) == library_checks().take(k),
    decreases k,
{
    if k > 0 {
        lemma_all_selected(k - 1);
        assert(library_checks().take(k) =~= library_checks().take(k - 1).push(library_checks()[k - 1]));
    } else {
        assert(library_checks().take(0) =~= Seq::<RuleCheck>::empty());
    }
    assert(k == library_checks().len() ==> library_checks().take(k) =~= library_checks());
}

impl BestPracticeRule {
    /// A copy of the rule.
    fn clone_rule(&self) -> (r: BestPracticeRule)
        ensures
            r.check == self.check,
            rule_fits_check(*self) ==> rule_fits_check(r),
    {
        rule_for(self.check)
    }
}


// ── Ordering findings ─────────────────────────────────────────────────────────

/// `a` must be listed after `b`: lower severity, or the same severity and a
/// later file, or the same file and a later line.
pub open spec fn sorts_after(a: FindingView, b: FindingView) -> bool {
    severity_level(a.3) < severity_level(b.3) || (severity_level(a.3) == severity_level(b.3) && (
    seq_lt(b.4, a.4) || (b.4 == a.4 && a.5 > b.5)))
}

/// Findings in report order.
pub open spec fn findings_sorted(fs: Seq<FindingView>) -> bool {
    forall|i: int, j: int| 0 <= i < j < fs.len() ==> !sorts_after(#[trigger] fs[i], #[trigger] fs[j])
}

proof fn lemma_sorts_after_order(a: FindingView, b: FindingView, c: FindingView)
    ensures
        sorts_after(a, b) ==> !sorts_after(b, a),
        !sorts_after(a, b) && !sorts_after(b, a) ==> severity_level(a.3) == severity_level(b.3)
            && a.4 == b.4 && a.5 == b.5,
        sorts_after(a, b) && sorts_after(b, c) ==> sorts_after(a, c),
{
    lemma_seq_lt_asym(a.4, b.4);
    lemma_seq_lt_asym(b.4, a.4);
    lemma_seq_lt_total(a.4, b.4);
    if seq_lt(b.4, a.4) && seq_lt(c.4, b.4) {
        lemma_seq_lt_trans(c.4, b.4, a.4);
    }
}

/// Whether the finding `a` must come after `b`.
fn sorts_after_exec(a: &Finding, b: &Finding) -> (r: bool)
    ensures
        r == sorts_after(finding_view(*a), finding_view(*b)),
{
    let la = a.severity.level();
    let lb = b.severity.level();
    if la != lb {
        return la < lb;
    }
    if str_lt(b.file.as_str(), a.file.as_str()) {
        return true;
    }
    if crate::text::str_eq(b.file.as_str(), a.file.as_str()) {
        return a.line > b.line;
    }
    false
}

/// Sorts findings by severity (most severe first), then file, then line,
/// keeping the order of findings that tie.
fn sort_findings(fs: Vec<Finding>) -> (r: Vec<Finding>)
    ensures
        findings_sorted(finding_views(r@)),
        finding_views(r@).to_multiset() == finding_views(fs@).to_multiset(),
{
    let mut out: Vec<Finding> = Vec::new();
    let ghost src = finding_views(fs@);
    let mut rest = fs;
    assert(finding_views(out@) =~= Seq::<FindingView>::empty());
    proof {
        finding_views(out@).to_multiset_ensures();
        vstd::multiset::lemma_multiset_empty_len(finding_views(out@).to_multiset());
    }
    assert(finding_views(out@).to_multiset().add(finding_views(rest@).to_multiset()) =~= src.to_multiset());
    while rest.len() > 0
        invariant
            findings_sorted(finding_views(out@)),
            finding_views(out@).to_multiset().add(finding_views(rest@).to_multiset())
                == src.to_multiset(),
        decreases rest@.len(),
    {
        let ghost before = rest@;
        let x = rest.remove(0);
        proof {
            assert(finding_views(before) =~= finding_views(rest@).insert(0, finding_view(x)));
            vstd::seq_lib::to_multiset_insert(finding_views(rest@), 0, finding_view(x));
        }
        let mut p: usize = 0;
        while p < out.len() && !sorts_after_exec(&out[p], &x)
            invariant
                p <= out@.len(),
                forall|i: int|
                    0 <= i < p ==> !sorts_after(
                        #[trigger] finding_views(out@)[i],
                        finding_view(x),
                    ),
            decreases out@.len() - p,
        {
            p += 1;
        }
        let ghost ov = finding_views(out@);
        out.insert(p, x);
        proof {
            assert(finding_views(out@) =~= ov.insert(p as int, finding_view(x)));
            vstd::seq_lib::to_multiset_insert(ov, p as int, finding_view(x));
            let nv = finding_views(out@);
            let xv = finding_view(x);
            assert forall|i: int, j: int| 0 <= i < j < nv.len() implies !sorts_after(
                #[trigger] nv[i],
                #[trigger] nv[j],
            ) by {
                if j < p {
                    assert(nv[i] == ov[i] && nv[j] == ov[j]);
                } else if j == p {
                    assert(nv[i] == ov[i] && nv[j] == xv);
                } else if i == p {
                    assert(nv[j] == ov[j - 1]);
                    assert(sorts_after(ov[p as int], xv));
                    if p < j - 1 {
                        assert(!sorts_after(ov[p as int], ov[j - 1]));
                    }
                    lemma_sorts_after_order(xv, ov[j - 1], xv);
                    lemma_sorts_after_order(ov[p as int], xv, ov[j - 1]);
                    lemma_sorts_after_order(ov[j - 1], xv, ov[j - 1]);
                    lemma_sorts_after_order(ov[p as int], ov[j - 1], xv);
                } else if i < p {
                    assert(nv[i] == ov[i] && nv[j] == ov[j - 1]);
                } else {
                    assert(nv[i] == ov[i - 1] && nv[j] == ov[j - 1]);
                }
            }
        }
    }
    assert(finding_views(rest@) =~= Seq::<FindingView>::empty());
    proof {
        finding_views(rest@).to_multiset_ensures();
        vstd::multiset::lemma_multiset_empty_len(finding_views(rest@).to_multiset());
    }
    assert(finding_views(out@).to_multiset() =~= finding_views(out@).to_multiset().add(
        finding_views(rest@).to_multiset(),
    ));
    out
}


/// The (path, contents) pairs as plain values.
pub open spec fn source_views(sources: Seq<(String, String)>) -> Seq<(Seq<char>, Seq<char>)> {
    sources.map_values(|p: (String, String)| (p.0@, p.1@))
}

impl BestPracticesAnalyzer {
    /// Runs every rule over every file given as (path, contents). Returns the
    /// findings, most severe first, then by file and line, and the suppressed
    /// findings in the order met.
    pub fn collect_findings(&self, sources: &Vec<(String, String)>) -> (r: (
        Vec<Finding>,
        Vec<SuppressedFinding>,
    ))
        ensures
            findings_sorted(finding_views(r.0@)),
            finding_views(r.0@).to_multiset() == files_pass(
                self.checks(),
                source_views(sources@),
                sources@.len() as int,
            ).0.to_multiset(),
            suppressed_views(r.1@) == files_pass(
                self.checks(),
                source_views(sources@),
                sources@.len() as int,
            ).1,
    {
        proof {
            use_type_invariant(self);
        }
        let ghost checks = self.checks();
        let ghost sv = source_views(sources@);
        let mut findings: Vec<Finding> = Vec::new();
        let mut suppressed: Vec<SuppressedFinding> = Vec::new();
        let mut i: usize = 0;
        while i < sources.len()
            invariant
                checks == rule_checks(self.rules@),
                forall|k: int| 0 <= k < self.rules@.len() ==> rule_fits_check(#[trigger] self.rules@[k]),
                sv == source_views(sources@),
                i <= sources@.len(),
                finding_views(findings@) == files_pass(checks, sv, i as int).0,
                suppressed_views(suppressed@) == files_pass(checks, sv, i as int).1,
            decreases sources@.len() - i,
        {
            let (path, text) = &sources[i];
            assert(sv[i as int] == (path@, text@));
            let src = ContractSource::parse(path.as_str(), text.as_str());
            let ghost f_before = finding_views(findings@);
            let ghost s_before = suppressed_views(suppressed@);
            let mut k: usize = 0;
            while k < self.rules.len()
                invariant
                    checks == rule_checks(self.rules@),
                    forall|j: int|
                        0 <= j < self.rules@.len() ==> rule_fits_check(#[trigger] self.rules@[j]),
                    src.wf(),
                    src.path@ == path@,
                    src.text@ == text@,
                    k <= self.rules@.len(),
                    finding_views(findings@) == f_before + file_pass(checks, path@, text@, k as int).0,
                    suppressed_views(suppressed@) == s_before + file_pass(
                        checks,
                        path@,
                        text@,
                        k as int,
                    ).1,
                decreases self.rules@.len() - k,
            {
                let rule = &self.rules[k];
                assert(checks[k as int] == rule.check);
                let vs = rule.run(&src);
                rule_findings(rule, &src, vs, &mut findings, &mut suppressed);
                assert(finding_views(findings@) =~= f_before + file_pass(checks, path@, text@, k + 1).0);
                assert(suppressed_views(suppressed@) =~= s_before + file_pass(
                    checks,
                    path@,
                    text@,
                    k + 1,
                ).1);
                k += 1;
            }
            i += 1;
        }
        let sorted = sort_findings(findings);
        (sorted, suppressed)
    }
}


/// Description of a rule, for listings and reports.
#[derive(Debug, Clone)]
pub struct RuleInfo {
    pub id: String,
    pub title: String,
    pub category: String,
    pub severity: Severity,
    pub references: Vec<String>,
    pub rationale: String,
    pub recommendation: String,
}

impl BestPracticeRule {
    /// The rule as owned strings.
    pub fn info(&self) -> (r: RuleInfo)
        ensures
            r.id@ == self.id@,
            r.title@ == self.title@,
            r.category@ == self.category@,
            r.severity == self.severity,
            r.references@.len() == self.references@.len(),
            forall|k: int| 0 <= k < r.references@.len() ==> (#[trigger] r.references@[k])@
                == self.references@[k]@,
            r.rationale@ == self.rationale@,
            r.recommendation@ == self.recommendation@,
    {
        RuleInfo {
            id: to_owned_string(self.id),
            title: to_owned_string(self.title),
            category: to_owned_string(self.category),
            severity: self.severity,
            references: owned_references(&self.references),
            rationale: to_owned_string(self.rationale),
            recommendation: to_owned_string(self.recommendation),
        }
    }
}

/// A few characters of a rule's id that already tell the ids apart: its
/// length, the characters at positions 3, 4 and 5, and its last character.
spec fn id_signature(c: RuleCheck) -> (nat, char, char, char, char) {
    match c {
        RuleCheck::MissingAuth => (11nat, 'A', 'U', 'T', '1'),
        RuleCheck::Reinitialization => (11nat, 'A', 'U', 'T', '2'),
        RuleCheck::UpgradeAuth => (11nat, 'A', 'U', 'T', '3'),
        RuleCheck::MockAuth => (11nat, 'A', 'U', 'T', '4'),
        RuleCheck::UncheckedArithmetic => (12nat, 'A', 'R', 'I', '1'),
        RuleCheck::OverflowChecksProfile => (12nat, 'A', 'R', 'I', '2'),
        RuleCheck::Unwrap => (10nat, 'E', 'R', 'R', '1'),
        RuleCheck::StringPanics => (10nat, 'E', 'R', 'R', '2'),
        RuleCheck::MissingTtl => (12nat, 'S', 'T', 'O', '1'),
        RuleCheck::UnboundedInstanceCollections => (12nat, 'S', 'T', 'O', '2'),
        RuleCheck::MissingEvents => (10nat, 'E', 'V', 'T', '1'),
        RuleCheck::ExternalCallBeforeEffects => (10nat, 'E', 'X', 'T', '1'),
        RuleCheck::UnboundedLoops => (10nat, 'D', 'O', 'S', '1'),
        RuleCheck::WeakRandomness => (11nat, 'R', 'A', 'N', '1'),
        RuleCheck::NoStd => (11nat, 'B', 'A', 'S', '1'),
        RuleCheck::UndocumentedEntryPoints => (10nat, 'D', 'O', 'C', '1'),
    }
}

proof fn lemma_id_signature(c: RuleCheck)
    ensures
        rule_id(c)@.len() == id_signature(c).0,
        rule_id(c)@[3] == id_signature(c).1,
        rule_id(c)@[4] == id_signature(c).2,
        rule_id(c)@[5] == id_signature(c).3,
        rule_id(c)@[rule_id(c)@.len() - 1] == id_signature(c).4,
{
    reveal_strlit("SF-AUTH-001");
    reveal_strlit("SF-AUTH-002");
    reveal_strlit("SF-AUTH-003");
    reveal_strlit("SF-AUTH-004");
    reveal_strlit("SF-ARITH-001");
    reveal_strlit("SF-ARITH-002");
    reveal_strlit("SF-ERR-001");
    reveal_strlit("SF-ERR-002");
    reveal_strlit("SF-STORE-001");
    reveal_strlit("SF-STORE-002");
    reveal_strlit("SF-EVT-001");
    reveal_strlit("SF-EXT-001");
    reveal_strlit("SF-DOS-001");
    reveal_strlit("SF-RAND-001");
    reveal_strlit("SF-BASE-001");
    reveal_strlit("SF-DOC-001");
}

/// No two rules of the library share an id.
pub proof fn law_rule_ids_are_distinct(a: RuleCheck, b: RuleCheck)
    requires
        a != b,
    ensures
        rule_id(a)@ != rule_id(b)@,
{
    lemma_id_signature(a);
    lemma_id_signature(b);
}

/// Every library rule names at least one reference and a recommendation, and
/// the library has a rule for each of its sixteen checks.
pub proof fn law_library_rules_are_referenced(r: Seq<BestPracticeRule>, k: int)
    requires
        r.len() == library_checks().len(),
        forall|j: int| 0 <= j < r.len() ==> rule_fits_check(#[trigger] r[j]),
        0 <= k < r.len(),
    ensures
        r[k].references@.len() > 0,
        r[k].recommendation@.len() > 0,
        r.len() == 16,
{
}

/// Whether any finding is at or above `threshold`.
pub fn findings_at_or_above(findings: &Vec<Finding>, threshold: Severity) -> (r: bool)
    ensures
        r == exists|k: int|
            0 <= k < findings@.len() && severity_level((#[trigger] findings@[k]).severity)
                >= severity_level(threshold),
{
    let mut k: usize = 0;
    while k < findings.len()
        invariant
            k <= findings@.len(),
            forall|j: int| 0 <= j < k ==> severity_level((#[trigger] findings@[j]).severity)
                < severity_level(threshold),
        decreases findings@.len() - k,
    {
        if findings[k].severity.level() >= threshold.level() {
            return true;
        }
        k += 1;
    }
    false
}

// ── Remediation tracking ──────────────────────────────────────────────────────

/// Where a tracked finding stands.
#[derive(Debug, Clone, Copy, PartialEq, Eq, Structural)]
pub enum TrackedStatus {
    Open,
    Resolved,
    /// Risk accepted by a maintainer; excluded from gating.
    Accepted,
}

impl TrackedStatus {
    pub fn label(self) -> (r: &'static str)
        ensures
            r == match self {
                TrackedStatus::Open => "open",
                TrackedStatus::Resolved => "resolved",
                TrackedStatus::Accepted => "accepted",
            },
    {
        match self {
            TrackedStatus::Open => "open",
            TrackedStatus::Resolved => "resolved",
            TrackedStatus::Accepted => "accepted",
        }
    }
}

/// Persists remediation state per project, so findings are followed across
/// runs: new findings open, disappearing ones resolve, returning ones reopen.
pub struct RemediationTracker {
    path: String,
}

impl RemediationTracker {
    /// The state file.
    pub closed spec fn path_view(&self) -> Seq<char> {
        self.path@
    }

    pub fn new(path: String) -> (r: Self)
        ensures
            r.path_view() == path@,
    {
        RemediationTracker { path }
    }

    pub fn path(&self) -> (r: &str)
        ensures
            r@ == self.path_view(),
    {
        self.path.as_str()
    }
}

// ── Reports ───────────────────────────────────────────────────────────────────

/// Output format of an analysis report.
#[derive(Debug, Clone, Copy, PartialEq, Eq, Structural)]
pub enum ReportFormat {
    Text,
    Markdown,
    Json,
    Sarif,
}

/// The format a lower-cased word names.
pub open spec fn report_format_of_word(w: Seq<char>) -> Option<ReportFormat> {
    if w == "text"@ {
        Some(ReportFormat::Text)
    } else if w == "markdown"@ || w == "md"@ {
        Some(ReportFormat::Markdown)
    } else if w == "json"@ {
        Some(ReportFormat::Json)
    } else if w == "sarif"@ {
        Some(ReportFormat::Sarif)
    } else {
        None
    }
}

impl ReportFormat {
    /// Parses a format name, ignoring case and surrounding blanks.
    pub fn parse(value: &str) -> (r: Result<ReportFormat, String>)
        ensures
            match report_format_of_word(word_of(value@)) {
                Some(f) => r == Ok::<ReportFormat, String>(f),
                None => r matches Err(m) && m@ == "unsupported report format '"@ + word_of(value@)
                    + "'; use text, markdown, json, or sarif"@,
            },
    {
        let w = word_chars(value);
        if eq_str(&w, "text") {
            Ok(ReportFormat::Text)
        } else if eq_str(&w, "markdown") || eq_str(&w, "md") {
            Ok(ReportFormat::Markdown)
        } else if eq_str(&w, "json") {
            Ok(ReportFormat::Json)
        } else if eq_str(&w, "sarif") {
            Ok(ReportFormat::Sarif)
        } else {
            let mut m = to_owned_string("unsupported report format '");
            push_str(&mut m, string_of(&w).as_str());
            push_str(&mut m, "'; use text, markdown, json, or sarif");
            Err(m)
        }
    }
}

} // verus!
