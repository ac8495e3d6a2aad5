//! The checks behind the best-practice rules: what each one reports on a
//! parsed contract source, stated over the source's lines and functions.

use vstd::prelude::*;
use crate::security::best_practices::{
    function_views, in_int_ranges, in_ranges, lemma_in_ranges_views, line_views, lines_spec,
    range_views, strip_comment, ContractSource, FnView, SourceFunction, Violation,
};
use crate::text::{
    chars_of, contains_seq, contains_str, decimal, decimal_string, is_prefix, push_str,
    starts_with_str, string_of, to_lowercase, to_owned_string, trim, trim_chars, trim_start,
    trim_start_chars, unicode_lowercase,
};

verus! {

/// A violation as plain values: line, enclosing function, evidence.
pub open spec fn violation_view(v: Violation) -> (int, Option<Seq<char>>, Seq<char>) {
    (
        v.line as int,
        match v.function {
            Some(n) => Some(n@),
            None => None,
        },
        v.evidence@,
    )
}

/// The views of a list of violations.
pub open spec fn violation_views(v: Seq<Violation>) -> Seq<(int, Option<Seq<char>>, Seq<char>)> {
    v.map_values(|x: Violation| violation_view(x))
}

proof fn lemma_views_push(v: Seq<Violation>, x: Violation)
    ensures
        violation_views(v.push(x)) == violation_views(v).push(violation_view(x)),
{
    assert(violation_views(v.push(x)) =~= violation_views(v).push(violation_view(x)));
}

proof fn lemma_views_append(a: Seq<Violation>, b: Seq<Violation>)
    ensures
        violation_views(a + b) == violation_views(a) + violation_views(b),
{
    assert(violation_views(a + b) =~= violation_views(a) + violation_views(b));
}

// ── Shared predicates ──────────────────────────────────────────────────────────

/// The body writes contract storage.
pub open spec fn writes_storage(body: Seq<char>) -> bool {
    contains_seq(body, ".storage()"@) && (contains_seq(body, ".set("@) || contains_seq(
        body,
        ".remove("@,
    ) || contains_seq(body, ".extend_ttl("@) || contains_seq(body, ".bump("@))
}

/// The body checks an authorization.
pub open spec fn requires_auth(body: Seq<char>) -> bool {
    contains_seq(body, "require_auth("@) || contains_seq(body, "require_auth_for_args("@)
}

/// The name of an initializer.
pub open spec fn is_initializer(name: Seq<char>) -> bool {
    name == "init"@ || name == "initialize"@ || name == "__constructor"@ || name == "setup"@
}

fn writes_storage_exec(body: &Vec<char>) -> (r: bool)
    ensures
        r == writes_storage(body@),
{
    contains_str(body, ".storage()") && (contains_str(body, ".set(") || contains_str(
        body,
        ".remove(",
    ) || contains_str(body, ".extend_ttl(") || contains_str(body, ".bump("))
}

fn requires_auth_exec(body: &Vec<char>) -> (r: bool)
    ensures
        r == requires_auth(body@),
{
    contains_str(body, "require_auth(") || contains_str(body, "require_auth_for_args(")
}

fn is_initializer_exec(name: &Vec<char>) -> (r: bool)
    ensures
        r == is_initializer(name@),
{
    crate::text::eq_str(name, "init") || crate::text::eq_str(name, "initialize")
        || crate::text::eq_str(name, "__constructor") || crate::text::eq_str(name, "setup")
}

// ── Rules on whole functions ───────────────────────────────────────────────────

/// The rules that judge a contract function as a whole.
#[derive(Debug, Clone, Copy, PartialEq, Eq, Structural)]
pub enum FunctionRule {
    MissingAuth,
    Reinitialization,
    UpgradeAuth,
    MissingEvents,
    UndocumentedEntryPoint,
}

/// Whether a function rule flags `f`.
pub open spec fn function_rule_flags(rule: FunctionRule, f: FnView) -> bool {
    let name = f.0;
    let body = f.3;
    f.4 && match rule {
        FunctionRule::MissingAuth => f.1 && !is_initializer(name) && writes_storage(body)
            && !requires_auth(body),
        FunctionRule::Reinitialization => f.1 && is_initializer(name) && name
            != "__constructor"@ && writes_storage(body) && !contains_seq(body, ".has("@),
        FunctionRule::UpgradeAuth => contains_seq(body, "update_current_contract_wasm"@)
            && !requires_auth(body),
        FunctionRule::MissingEvents => f.1 && writes_storage(body) && !contains_seq(
            body,
            ".events()"@,
        ) && !contains_seq(body, "::publish("@) && !is_initializer(name),
        FunctionRule::UndocumentedEntryPoint => f.1 && !f.5,
    }
}

/// The evidence a function rule reports for a function named `name`.
pub open spec fn function_rule_evidence(rule: FunctionRule, name: Seq<char>) -> Seq<char> {
    match rule {
        FunctionRule::MissingAuth => "`"@ + name + "` writes storage without require_auth()"@,
        FunctionRule::Reinitialization => "`"@ + name
            + "` sets state without checking whether it was already initialized"@,
        FunctionRule::UpgradeAuth => "`"@ + name
            + "` upgrades contract WASM without require_auth()"@,
        FunctionRule::MissingEvents => "`"@ + name + "` changes state without emitting an event"@,
        FunctionRule::UndocumentedEntryPoint => "public entry point `"@ + name
            + "` has no doc comment"@,
    }
}

/// What a function rule reports over `fs`, in order.
pub open spec fn function_rule_hits(rule: FunctionRule, fs: Seq<FnView>) -> Seq<
    (int, Option<Seq<char>>, Seq<char>),
>
    decreases fs.len(),
{
    if fs.len() == 0 {
        Seq::empty()
    } else {
        let rest = function_rule_hits(rule, fs.drop_last());
        let f = fs.last();
        if function_rule_flags(rule, f) {
            rest.push((f.2, Some(f.0), function_rule_evidence(rule, f.0)))
        } else {
            rest
        }
    }
}

fn function_rule_flags_exec(rule: FunctionRule, f: &SourceFunction) -> (r: bool)
    ensures
        r == function_rule_flags(rule, crate::security::best_practices::function_view(*f)),
{
    if !f.in_contract_impl {
        return false;
    }
    let name = chars_of(f.name.as_str());
    let body = chars_of(f.body.as_str());
    match rule {
        FunctionRule::MissingAuth => f.is_pub && !is_initializer_exec(&name) && writes_storage_exec(
            &body,
        ) && !requires_auth_exec(&body),
        FunctionRule::Reinitialization => f.is_pub && is_initializer_exec(&name)
            && !crate::text::eq_str(&name, "__constructor") && writes_storage_exec(&body)
            && !contains_str(&body, ".has("),
        FunctionRule::UpgradeAuth => contains_str(&body, "update_current_contract_wasm")
            && !requires_auth_exec(&body),
        FunctionRule::MissingEvents => f.is_pub && writes_storage_exec(&body) && !contains_str(
            &body,
            ".events()",
        ) && !contains_str(&body, "::publish(") && !is_initializer_exec(&name),
        FunctionRule::UndocumentedEntryPoint => f.is_pub && !f.documented,
    }
}

/// `prefix`, the name, then `suffix`.
fn quoted(prefix: &str, name: &str, suffix: &str) -> (r: String)
    ensures
        r@ == prefix@ + name@ + suffix@,
{
    let mut s = to_owned_string(prefix);
    push_str(&mut s, name);
    push_str(&mut s, suffix);
    s
}

fn function_rule_evidence_exec(rule: FunctionRule, name: &str) -> (r: String)
    ensures
        r@ == function_rule_evidence(rule, name@),
{
    match rule {
        FunctionRule::MissingAuth => quoted("`", name, "` writes storage without require_auth()"),
        FunctionRule::Reinitialization => quoted(
            "`",
            name,
            "` sets state without checking whether it was already initialized",
        ),
        FunctionRule::UpgradeAuth => quoted(
            "`",
            name,
            "` upgrades contract WASM without require_auth()",
        ),
        FunctionRule::MissingEvents => quoted(
            "`",
            name,
            "` changes state without emitting an event",
        ),
        FunctionRule::UndocumentedEntryPoint => quoted(
            "public entry point `",
            name,
            "` has no doc comment",
        ),
    }
}

/// Runs a function rule over the source's functions.
pub fn check_function_rule(rule: FunctionRule, src: &ContractSource) -> (r: Vec<Violation>)
    ensures
        violation_views(r@) == function_rule_hits(rule, function_views(src.functions@)),
{
    let ghost fv = function_views(src.functions@);
    let mut out: Vec<Violation> = Vec::new();
    let mut k: usize = 0;
    while k < src.functions.len()
        invariant
            fv == function_views(src.functions@),
            k <= src.functions@.len(),
            violation_views(out@) == function_rule_hits(rule, fv.take(k as int)),
        decreases src.functions@.len() - k,
    {
        let f = &src.functions[k];
        assert(fv.take(k + 1).drop_last() =~= fv.take(k as int));
        assert(fv.take(k + 1).last() == fv[k as int]);
        if function_rule_flags_exec(rule, f) {
            let v = Violation {
                line: f.line,
                function: Some(to_owned_string(f.name.as_str())),
                evidence: function_rule_evidence_exec(rule, f.name.as_str()),
            };
            proof {
                lemma_views_push(out@, v);
            }
            out.push(v);
        }
        k += 1;
    }
    assert(fv.take(k as int) =~= fv);
    out
}

// ── Rules on single source lines ──────────────────────────────────────────────

/// The rules that judge each non-test source line.
#[derive(Debug, Clone, Copy, PartialEq, Eq, Structural)]
pub enum LineRule {
    MockAuth,
    Unwrap,
    StringPanics,
    UnboundedInstanceCollections,
    WeakRandomness,
}

/// `s` contains the character `c`.
pub open spec fn has_char(s: Seq<char>, c: char) -> bool {
    exists|i: int| 0 <= i < s.len() && s[i] == c
}

/// Whether a line rule flags the code of a line.
pub open spec fn line_rule_flags(rule: LineRule, code: Seq<char>) -> bool {
    match rule {
        LineRule::MockAuth => contains_seq(code, "mock_all_auths"@) || contains_seq(
            code,
            "mock_auths("@,
        ),
        LineRule::Unwrap => contains_seq(code, ".unwrap()"@) || contains_seq(code, ".expect("@),
        LineRule::StringPanics => contains_seq(code, "panic!(\""@) || contains_seq(
            code,
            "unreachable!(\""@,
        ) || contains_seq(code, "unimplemented!("@),
        LineRule::UnboundedInstanceCollections => contains_seq(code, ".instance()"@)
            && contains_seq(code, ".set("@) && (contains_seq(code, "Vec"@) || contains_seq(
            code,
            "Map"@,
        ) || contains_seq(code, "vec!"@)),
        LineRule::WeakRandomness => (contains_seq(code, "ledger().timestamp()"@) || contains_seq(
            code,
            "ledger().sequence()"@,
        )) && (has_char(code, '%') || contains_seq(unicode_lowercase(code), "rand"@)),
    }
}

fn has_char_exec(s: &Vec<char>, c: char) -> (r: bool)
    ensures
        r == has_char(s@, c),
{
    let mut i: usize = 0;
    while i < s.len()
        invariant
            i <= s@.len(),
            forall|k: int| 0 <= k < i ==> s@[k] != c,
        decreases s@.len() - i,
    {
        if s[i] == c {
            return true;
        }
        i += 1;
    }
    false
}

fn line_rule_flags_exec(rule: LineRule, code: &Vec<char>) -> (r: bool)
    ensures
        r == line_rule_flags(rule, code@),
{
    match rule {
        LineRule::MockAuth => contains_str(code, "mock_all_auths") || contains_str(
            code,
            "mock_auths(",
        ),
        LineRule::Unwrap => contains_str(code, ".unwrap()") || contains_str(code, ".expect("),
        LineRule::StringPanics => contains_str(code, "panic!(\"") || contains_str(
            code,
            "unreachable!(\"",
        ) || contains_str(code, "unimplemented!("),
        LineRule::UnboundedInstanceCollections => contains_str(code, ".instance()")
            && contains_str(code, ".set(") && (contains_str(code, "Vec") || contains_str(
            code,
            "Map",
        ) || contains_str(code, "vec!")),
        LineRule::WeakRandomness => {
            if !(contains_str(code, "ledger().timestamp()") || contains_str(
                code,
                "ledger().sequence()",
            )) {
                return false;
            }
            if has_char_exec(code, '%') {
                return true;
            }
            let lower = chars_of(to_lowercase(string_of(code).as_str()).as_str());
            contains_str(&lower, "rand")
        },
    }
}

/// The number of lines of a function body.
pub open spec fn body_line_count(f: FnView) -> int {
    lines_spec(f.3).len() as int
}

/// The name of the last function whose lines cover `line`.
pub open spec fn function_at(fs: Seq<FnView>, line: int) -> Option<Seq<char>>
    decreases fs.len(),
{
    if fs.len() == 0 {
        None
    } else if fs.last().2 <= line < fs.last().2 + body_line_count(fs.last()) {
        Some(fs.last().0)
    } else {
        function_at(fs.drop_last(), line)
    }
}

fn function_at_exec(fs: &Vec<SourceFunction>, line: usize) -> (r: Option<String>)
    ensures
        match function_at(function_views(fs@), line as int) {
            Some(n) => r matches Some(s) && s@ == n,
            None => r is None,
        },
{
    let ghost fv = function_views(fs@);
    let mut k = fs.len();
    assert(fv.take(k as int) =~= fv);
    while k > 0
        invariant
            fv == function_views(fs@),
            k <= fs@.len(),
            function_at(fv, line as int) == function_at(fv.take(k as int), line as int),
        decreases k,
    {
        let f = &fs[k - 1];
        assert(fv.take(k as int).last() == fv[k - 1]);
        assert(fv.take(k as int).drop_last() =~= fv.take(k - 1));
        let count = crate::security::best_practices::split_lines(f.body.as_str()).len();
        if f.line <= line && (line - f.line) < count {
            return Some(to_owned_string(f.name.as_str()));
        }
        k -= 1;
    }
    None
}

/// What a line rule reports on the first `i` lines (1-based numbers).
pub open spec fn line_rule_hits(
    rule: LineRule,
    lines: Seq<Seq<char>>,
    tests: Seq<(int, int)>,
    fs: Seq<FnView>,
    i: int,
) -> Seq<(int, Option<Seq<char>>, Seq<char>)>
    decreases i,
{
    if i <= 0 || i > lines.len() {
        Seq::empty()
    } else {
        let rest = line_rule_hits(rule, lines, tests, fs, i - 1);
        let code = strip_comment(lines[i - 1]);
        if !in_int_ranges(tests, i) && line_rule_flags(rule, code) {
            rest.push((i, function_at(fs, i), trim(code)))
        } else {
            rest
        }
    }
}

/// Runs a line rule over the non-test lines of the source.
pub fn check_line_rule(rule: LineRule, src: &ContractSource) -> (r: Vec<Violation>)
    ensures
        violation_views(r@) == line_rule_hits(
            rule,
            line_views(src.lines@),
            range_views(src.test_ranges@),
            function_views(src.functions@),
            src.lines@.len() as int,
        ),
{
    let ghost lv = line_views(src.lines@);
    let mut out: Vec<Violation> = Vec::new();
    let mut i: usize = 0;
    while i < src.lines.len()
        invariant
            lv == line_views(src.lines@),
            i <= src.lines@.len(),
            violation_views(out@) == line_rule_hits(
                rule,
                lv,
                range_views(src.test_ranges@),
                function_views(src.functions@),
                i as int,
            ),
        decreases src.lines@.len() - i,
    {
        assert(lv[i as int] == src.lines@[i as int]@);
        let n = i + 1;
        proof {
            lemma_in_ranges_views(src.test_ranges@, n as int);
        }
        if !src.in_test_code(n) {
            let code = chars_of(
                crate::security::best_practices::strip_line_comment(src.lines[i].as_str()).as_str(),
            );
            if line_rule_flags_exec(rule, &code) {
                let v = Violation {
                    line: n,
                    function: function_at_exec(&src.functions, n),
                    evidence: string_of(&trim_chars(&code)),
                };
                proof {
                    lemma_views_push(out@, v);
                }
                out.push(v);
            }
        }
        i += 1;
    }
    out
}

// ── Rules on the lines of contract function bodies ────────────────────────────

/// The rules that judge each line of a contract function's body.
#[derive(Debug, Clone, Copy, PartialEq, Eq, Structural)]
pub enum BodyRule {
    UncheckedArithmetic,
    UnboundedLoops,
}

/// Whether a body rule looks into the function at all.
pub open spec fn body_rule_scans(rule: BodyRule, f: FnView) -> bool {
    f.4 && match rule {
        BodyRule::UncheckedArithmetic => true,
        BodyRule::UnboundedLoops => contains_seq(f.3, ".storage()"@),
    }
}

/// The code contains an arithmetic operator.
pub open spec fn has_arithmetic(code: Seq<char>) -> bool {
    contains_seq(code, "+="@) || contains_seq(code, "-="@) || contains_seq(code, "*="@)
        || contains_seq(code, " + "@) || contains_seq(code, " - "@) || contains_seq(code, " * "@)
}

/// The lower-cased code names a value-bearing quantity.
pub open spec fn names_amount(lower: Seq<char>) -> bool {
    contains_seq(lower, "amount"@) || contains_seq(lower, "balance"@) || contains_seq(
        lower,
        "supply"@,
    ) || contains_seq(lower, "total"@) || contains_seq(lower, "price"@) || contains_seq(
        lower,
        "fee"@,
    )
}

/// Whether a body rule flags the code of a body line.
pub open spec fn body_rule_flags(rule: BodyRule, code: Seq<char>) -> bool {
    match rule {
        BodyRule::UncheckedArithmetic => has_arithmetic(code) && names_amount(
            unicode_lowercase(code),
        ) && !contains_seq(code, "checked_"@) && !contains_seq(code, "saturating_"@),
        BodyRule::UnboundedLoops => {
            let t = trim_start(code);
            (is_prefix("for "@, t) && contains_seq(t, " in "@) && !contains_seq(t, ".."@))
                || is_prefix("loop"@, t) || is_prefix("while "@, t)
        },
    }
}

/// What a body rule reports on the first `k` lines of a body that starts at
/// line `first` of the function `name`.
pub open spec fn body_line_hits(
    rule: BodyRule,
    name: Seq<char>,
    first: int,
    lines: Seq<Seq<char>>,
    k: int,
) -> Seq<(int, Option<Seq<char>>, Seq<char>)>
    decreases k,
{
    if k <= 0 || k > lines.len() {
        Seq::empty()
    } else {
        let rest = body_line_hits(rule, name, first, lines, k - 1);
        let code = strip_comment(lines[k - 1]);
        if first + k - 1 <= usize::MAX && body_rule_flags(rule, code) {
            rest.push((first + k - 1, Some(name), trim(code)))
        } else {
            rest
        }
    }
}

/// What a body rule reports over `fs`, function by function.
pub open spec fn body_rule_hits(rule: BodyRule, fs: Seq<FnView>) -> Seq<
    (int, Option<Seq<char>>, Seq<char>),
>
    decreases fs.len(),
{
    if fs.len() == 0 {
        Seq::empty()
    } else {
        let rest = body_rule_hits(rule, fs.drop_last());
        let f = fs.last();
        if body_rule_scans(rule, f) {
            let ls = lines_spec(f.3);
            rest + body_line_hits(rule, f.0, f.2, ls, ls.len() as int)
        } else {
            rest
        }
    }
}

fn body_rule_flags_exec(rule: BodyRule, code: &Vec<char>) -> (r: bool)
    ensures
        r == body_rule_flags(rule, code@),
{
    match rule {
        BodyRule::UncheckedArithmetic => {
            let arith = contains_str(code, "+=") || contains_str(code, "-=") || contains_str(
                code,
                "*=",
            ) || contains_str(code, " + ") || contains_str(code, " - ") || contains_str(
                code,
                " * ",
            );
            if !arith {
                return false;
            }
            let lower = chars_of(to_lowercase(string_of(code).as_str()).as_str());
            let amount = contains_str(&lower, "amount") || contains_str(&lower, "balance")
                || contains_str(&lower, "supply") || contains_str(&lower, "total")
                || contains_str(&lower, "price") || contains_str(&lower, "fee");
            amount && !contains_str(code, "checked_") && !contains_str(code, "saturating_")
        },
        BodyRule::UnboundedLoops => {
            let t = trim_start_chars(code);
            (starts_with_str(&t, "for ") && contains_str(&t, " in ") && !contains_str(&t, ".."))
                || starts_with_str(&t, "loop") || starts_with_str(&t, "while ")
        },
    }
}

/// The violations a body rule finds in one function (a line whose number
/// does not fit in `usize` is not reported).
fn body_hits_of(rule: BodyRule, f: &SourceFunction) -> (r: Vec<Violation>)
    ensures
        violation_views(r@) == body_line_hits(
            rule,
            f.name@,
            f.line as int,
            lines_spec(f.body@),
            lines_spec(f.body@).len() as int,
        ),
{
    let lines = crate::security::best_practices::split_lines(f.body.as_str());
    let ghost ls = line_views(lines@);
    let mut out: Vec<Violation> = Vec::new();
    let mut k: usize = 0;
    while k < lines.len()
        invariant
            ls == line_views(lines@),
            ls == lines_spec(f.body@),
            k <= lines@.len(),
            violation_views(out@) == body_line_hits(rule, f.name@, f.line as int, ls, k as int),
        decreases lines@.len() - k,
    {
        assert(ls[k as int] == lines@[k as int]@);
        let code = chars_of(
            crate::security::best_practices::strip_line_comment(lines[k].as_str()).as_str(),
        );
        if k <= usize::MAX - f.line && body_rule_flags_exec(rule, &code) {
            let v = Violation {
                line: f.line + k,
                function: Some(to_owned_string(f.name.as_str())),
                evidence: string_of(&trim_chars(&code)),
            };
            proof {
                lemma_views_push(out@, v);
            }
            out.push(v);
        }
        k += 1;
    }
    out
}

/// Runs a body rule over the contract functions.
pub fn check_body_rule(rule: BodyRule, src: &ContractSource) -> (r: Vec<Violation>)
    ensures
        violation_views(r@) == body_rule_hits(rule, function_views(src.functions@)),
{
    let ghost fv = function_views(src.functions@);
    let mut out: Vec<Violation> = Vec::new();
    let mut k: usize = 0;
    while k < src.functions.len()
        invariant
            fv == function_views(src.functions@),
            k <= src.functions@.len(),
            violation_views(out@) == body_rule_hits(rule, fv.take(k as int)),
        decreases src.functions@.len() - k,
    {
        let f = &src.functions[k];
        assert(fv.take(k + 1).drop_last() =~= fv.take(k as int));
        assert(fv.take(k + 1).last() == fv[k as int]);
        let scans = f.in_contract_impl && match rule {
            BodyRule::UncheckedArithmetic => true,
            BodyRule::UnboundedLoops => contains_str(&chars_of(f.body.as_str()), ".storage()"),
        };
        if scans {
            let mut hits = body_hits_of(rule, f);
            proof {
                lemma_views_append(out@, hits@);
            }
            out.append(&mut hits);
        }
        k += 1;
    }
    assert(fv.take(k as int) =~= fv);
    out
}

// ── The external-call rule ────────────────────────────────────────────────────

/// The code contains an external contract call.
pub open spec fn is_call_line(code: Seq<char>) -> bool {
    contains_seq(code, "invoke_contract"@) || contains_seq(code, "Client::new("@)
        || contains_seq(code, "try_invoke_contract"@)
}

/// The code touches storage.
pub open spec fn is_write_line(code: Seq<char>) -> bool {
    contains_seq(code, ".storage()"@) || contains_seq(code, ".set("@) || contains_seq(
        code,
        ".remove("@,
    ) || contains_seq(code, ".extend_ttl("@) || contains_seq(code, ".bump("@)
}

/// The first body line, from `j` on, that calls another contract.
pub open spec fn first_call_from(lines: Seq<Seq<char>>, j: int) -> Option<int>
    decreases lines.len() - j,
{
    if j < 0 || j >= lines.len() {
        None
    } else if is_call_line(strip_comment(lines[j])) {
        Some(j)
    } else {
        first_call_from(lines, j + 1)
    }
}

/// Some body line after `j` touches storage.
pub open spec fn writes_after(lines: Seq<Seq<char>>, j: int) -> bool {
    exists|k: int| j < k < lines.len() && #[trigger] is_write_line(strip_comment(lines[k]))
}

/// What the external-call rule reports for one function.
pub open spec fn external_call_hit(f: FnView) -> Option<
    (int, Option<Seq<char>>, Seq<char>),
> {
    let ls = lines_spec(f.3);
    if !f.4 {
        None
    } else {
        match first_call_from(ls, 0) {
            Some(c) => if writes_after(ls, c) && f.2 + c <= usize::MAX {
                Some(
                    (
                        f.2,
                        Some(f.0),
                        "`"@ + f.0 + "` writes state after an external contract call (line "@
                            + decimal((f.2 + c) as nat) + ")"@,
                    ),
                )
            } else {
                None
            },
            None => None,
        }
    }
}

/// What the external-call rule reports over `fs`.
pub open spec fn external_call_hits(fs: Seq<FnView>) -> Seq<
    (int, Option<Seq<char>>, Seq<char>),
>
    decreases fs.len(),
{
    if fs.len() == 0 {
        Seq::empty()
    } else {
        let rest = external_call_hits(fs.drop_last());
        match external_call_hit(fs.last()) {
            Some(v) => rest.push(v),
            None => rest,
        }
    }
}

fn code_at(lines: &Vec<String>, k: usize) -> (r: Vec<char>)
    requires
        k < lines@.len(),
    ensures
        r@ == strip_comment(line_views(lines@)[k as int]),
{
    assert(line_views(lines@)[k as int] == lines@[k as int]@);
    chars_of(crate::security::best_practices::strip_line_comment(lines[k].as_str()).as_str())
}

fn is_call_line_exec(code: &Vec<char>) -> (r: bool)
    ensures
        r == is_call_line(code@),
{
    contains_str(code, "invoke_contract") || contains_str(code, "Client::new(") || contains_str(
        code,
        "try_invoke_contract",
    )
}

fn is_write_line_exec(code: &Vec<char>) -> (r: bool)
    ensures
        r == is_write_line(code@),
{
    contains_str(code, ".storage()") || contains_str(code, ".set(") || contains_str(
        code,
        ".remove(",
    ) || contains_str(code, ".extend_ttl(") || contains_str(code, ".bump(")
}

/// The first body line that calls another contract.
fn first_call_exec(lines: &Vec<String>) -> (r: Option<usize>)
    ensures
        match first_call_from(line_views(lines@), 0) {
            Some(c) => r == Some(c as usize) && 0 <= c < lines@.len(),
            None => r is None,
        },
{
    let ghost ls = line_views(lines@);
    let mut c: usize = 0;
    while c < lines.len()
        invariant
            ls == line_views(lines@),
            c <= lines@.len(),
            first_call_from(ls, 0) == first_call_from(ls, c as int),
        decreases lines@.len() - c,
    {
        if is_call_line_exec(&code_at(lines, c)) {
            return Some(c);
        }
        c += 1;
    }
    None
}

fn external_call_hit_exec(f: &SourceFunction) -> (r: Option<Violation>)
    ensures
        match external_call_hit(crate::security::best_practices::function_view(*f)) {
            Some(v) => r matches Some(x) && violation_view(x) == v,
            None => r is None,
        },
{
    if !f.in_contract_impl {
        return None;
    }
    let lines = crate::security::best_practices::split_lines(f.body.as_str());
    let ghost ls = line_views(lines@);
    let n = lines.len();
    assert(ls.len() == lines@.len());
    let c = match first_call_exec(&lines) {
        Some(c) => c,
        None => {
            return None;
        },
    };
    let mut k = c + 1;
    while k < lines.len()
        invariant
            ls == line_views(lines@),
            ls == lines_spec(f.body@),
            f.in_contract_impl,
            c < lines@.len(),
            first_call_from(ls, 0) == Some(c as int),
            c < k <= lines@.len(),
            forall|j: int| c < j < k ==> !#[trigger] is_write_line(strip_comment(ls[j])),
        decreases lines@.len() - k,
    {
        let code = code_at(&lines, k);
        if is_write_line_exec(&code) {
            assert(is_write_line(strip_comment(ls[k as int])));
            if c > usize::MAX - f.line {
                return None;
            }
            let at = f.line + c;
            let mut e = quoted(
                "`",
                f.name.as_str(),
                "` writes state after an external contract call (line ",
            );
            push_str(&mut e, decimal_string(at as u64).as_str());
            push_str(&mut e, ")");
            assert(writes_after(ls, c as int));
            assert(e@ =~= "`"@ + f.name@ + "` writes state after an external contract call (line "@
                + decimal((f.line + c) as nat) + ")"@);
            let v = Violation {
                line: f.line,
                function: Some(to_owned_string(f.name.as_str())),
                evidence: e,
            };
            return Some(v);
        }
        k += 1;
    }
    None
}

/// Runs the external-call rule over the source's functions.
pub fn check_external_calls(src: &ContractSource) -> (r: Vec<Violation>)
    ensures
        violation_views(r@) == external_call_hits(function_views(src.functions@)),
{
    let ghost fv = function_views(src.functions@);
    let mut out: Vec<Violation> = Vec::new();
    let mut k: usize = 0;
    while k < src.functions.len()
        invariant
            fv == function_views(src.functions@),
            k <= src.functions@.len(),
            violation_views(out@) == external_call_hits(fv.take(k as int)),
        decreases src.functions@.len() - k,
    {
        assert(fv.take(k + 1).drop_last() =~= fv.take(k as int));
        assert(fv.take(k + 1).last() == fv[k as int]);
        match external_call_hit_exec(&src.functions[k]) {
            Some(v) => {
                proof {
                    lemma_views_push(out@, v);
                }
                out.push(v);
            },
            None => {},
        }
        k += 1;
    }
    assert(fv.take(k as int) =~= fv);
    out
}


// ── Rules on the whole file ────────────────────────────────────────────────────

/// `p` is a suffix of `s`.
pub open spec fn is_suffix(p: Seq<char>, s: Seq<char>) -> bool {
    p.len() <= s.len() && s.skip(s.len() - p.len()) == p
}

fn ends_with_str(s: &Vec<char>, p: &str) -> (r: bool)
    ensures
        r == is_suffix(p@, s@),
{
    let pv = chars_of(p);
    if pv.len() > s.len() {
        return false;
    }
    let start = s.len() - pv.len();
    let tail = crate::text::slice_chars(s, start, s.len());
    assert(tail@ =~= s@.skip(start as int));
    crate::text::chars_eq(&tail, &pv)
}

/// The first line from `j` on whose trimmed text is `target`.
pub open spec fn first_trimmed_eq(lines: Seq<Seq<char>>, target: Seq<char>, j: int) -> Option<int>
    decreases lines.len() - j,
{
    if j < 0 || j >= lines.len() {
        None
    } else if trim(lines[j]) == target {
        Some(j)
    } else {
        first_trimmed_eq(lines, target, j + 1)
    }
}

fn first_trimmed_exec(lines: &Vec<String>, target: &str) -> (r: Option<usize>)
    ensures
        match first_trimmed_eq(line_views(lines@), target@, 0) {
            Some(i) => r == Some(i as usize) && 0 <= i < lines@.len(),
            None => r is None,
        },
{
    let ghost lv = line_views(lines@);
    let mut i: usize = 0;
    while i < lines.len()
        invariant
            lv == line_views(lines@),
            i <= lines@.len(),
            first_trimmed_eq(lv, target@, 0) == first_trimmed_eq(lv, target@, i as int),
        decreases lines@.len() - i,
    {
        assert(lv[i as int] == lines@[i as int]@);
        let t = crate::text::trim_str(lines[i].as_str());
        if crate::text::eq_str(&t, target) {
            return Some(i);
        }
        i += 1;
    }
    None
}

/// What the release-profile rule reports on a file.
pub open spec fn overflow_profile_hits(path: Seq<char>, text: Seq<char>, lines: Seq<Seq<char>>) -> Seq<
    (int, Option<Seq<char>>, Seq<char>),
> {
    if is_suffix("Cargo.toml"@, path) && contains_seq(text, "[profile.release]"@) && !contains_seq(
        text,
        "overflow-checks = true"@,
    ) {
        let line = match first_trimmed_eq(lines, "[profile.release]"@, 0) {
            Some(i) => i + 1,
            None => 1,
        };
        seq![(line, None, "[profile.release] without overflow-checks = true"@)]
    } else {
        Seq::empty()
    }
}

/// Runs the release-profile rule.
pub fn check_overflow_profile(src: &ContractSource) -> (r: Vec<Violation>)
    ensures
        violation_views(r@) == overflow_profile_hits(src.path@, src.text@, line_views(src.lines@)),
{
    let path = chars_of(src.path.as_str());
    let text = chars_of(src.text.as_str());
    let mut out: Vec<Violation> = Vec::new();
    if ends_with_str(&path, "Cargo.toml") && contains_str(&text, "[profile.release]")
        && !contains_str(&text, "overflow-checks = true") {
        let n = src.lines.len();
        let line: usize = match first_trimmed_exec(&src.lines, "[profile.release]") {
            Some(i) => i + 1,
            None => 1,
        };
        let v = Violation {
            line,
            function: None,
            evidence: to_owned_string("[profile.release] without overflow-checks = true"),
        };
        proof {
            lemma_views_push(out@, v);
        }
        out.push(v);
    }
    out
}

/// The code of a line writes long-lived storage.
pub open spec fn mentions_long_lived(code: Seq<char>) -> bool {
    contains_seq(code, ".persistent()"@) || contains_seq(code, ".instance()"@)
}

/// The first non-test line from `j` on whose code satisfies `mentions_long_lived`,
/// and, when `with_set`, also contains `.set(`.
pub open spec fn first_long_lived_from(
    lines: Seq<Seq<char>>,
    tests: Seq<(int, int)>,
    with_set: bool,
    j: int,
) -> Option<int>
    decreases lines.len() - j,
{
    if j < 0 || j >= lines.len() {
        None
    } else if !in_int_ranges(tests, j + 1) && mentions_long_lived(strip_comment(lines[j])) && (!with_set
        || contains_seq(strip_comment(lines[j]), ".set("@)) {
        Some(j)
    } else {
        first_long_lived_from(lines, tests, with_set, j + 1)
    }
}

/// What the TTL rule reports on a file.
pub open spec fn missing_ttl_hits(
    text: Seq<char>,
    lines: Seq<Seq<char>>,
    tests: Seq<(int, int)>,
    fs: Seq<FnView>,
) -> Seq<(int, Option<Seq<char>>, Seq<char>)> {
    if first_long_lived_from(lines, tests, true, 0) is Some && !contains_seq(text, "extend_ttl"@)
        && !contains_seq(text, ".bump("@) {
        let line = match first_long_lived_from(lines, tests, false, 0) {
            Some(i) => i + 1,
            None => 1,
        };
        seq![
            (
                line,
                function_at(fs, line),
                "persistent/instance storage is written but TTL is never extended"@,
            ),
        ]
    } else {
        Seq::empty()
    }
}

fn first_long_lived_exec(src: &ContractSource, with_set: bool) -> (r: Option<usize>)
    ensures
        match first_long_lived_from(line_views(src.lines@), range_views(src.test_ranges@), with_set, 0) {
            Some(i) => r == Some(i as usize) && 0 <= i < src.lines@.len(),
            None => r is None,
        },
{
    let ghost lv = line_views(src.lines@);
    let mut i: usize = 0;
    while i < src.lines.len()
        invariant
            lv == line_views(src.lines@),
            i <= src.lines@.len(),
            first_long_lived_from(lv, range_views(src.test_ranges@), with_set, 0)
                == first_long_lived_from(lv, range_views(src.test_ranges@), with_set, i as int),
        decreases src.lines@.len() - i,
    {
        let code = code_at(&src.lines, i);
        proof {
            lemma_in_ranges_views(src.test_ranges@, i + 1);
        }
        if !src.in_test_code(i + 1) && (contains_str(&code, ".persistent()") || contains_str(
            &code,
            ".instance()",
        )) && (!with_set || contains_str(&code, ".set(")) {
            return Some(i);
        }
        i += 1;
    }
    None
}

/// Runs the TTL rule.
pub fn check_missing_ttl(src: &ContractSource) -> (r: Vec<Violation>)
    ensures
        violation_views(r@) == missing_ttl_hits(
            src.text@,
            line_views(src.lines@),
            range_views(src.test_ranges@),
            function_views(src.functions@),
        ),
{
    let text = chars_of(src.text.as_str());
    let mut out: Vec<Violation> = Vec::new();
    let n = src.lines.len();
    let writes = first_long_lived_exec(src, true);
    if writes.is_some() && !contains_str(&text, "extend_ttl") && !contains_str(&text, ".bump(") {
        let line = match first_long_lived_exec(src, false) {
            Some(i) => i + 1,
            None => 1,
        };
        let v = Violation {
            line,
            function: function_at_exec(&src.functions, line),
            evidence: to_owned_string(
                "persistent/instance storage is written but TTL is never extended",
            ),
        };
        proof {
            lemma_views_push(out@, v);
        }
        out.push(v);
    }
    out
}

/// What the `no_std` rule reports on a file.
pub open spec fn no_std_hits(path: Seq<char>, text: Seq<char>) -> Seq<
    (int, Option<Seq<char>>, Seq<char>),
> {
    if is_suffix(".rs"@, path) && contains_seq(text, "#[contract]"@) && !contains_seq(
        text,
        "#![no_std]"@,
    ) {
        seq![(1int, None, "contract crate root does not declare #![no_std]"@)]
    } else {
        Seq::empty()
    }
}

/// Runs the `no_std` rule.
pub fn check_no_std(src: &ContractSource) -> (r: Vec<Violation>)
    ensures
        violation_views(r@) == no_std_hits(src.path@, src.text@),
{
    let path = chars_of(src.path.as_str());
    let text = chars_of(src.text.as_str());
    let mut out: Vec<Violation> = Vec::new();
    if ends_with_str(&path, ".rs") && contains_str(&text, "#[contract]") && !contains_str(
        &text,
        "#![no_std]",
    ) {
        let v = Violation {
            line: 1,
            function: None,
            evidence: to_owned_string("contract crate root does not declare #![no_std]"),
        };
        proof {
            lemma_views_push(out@, v);
        }
        out.push(v);
    }
    out
}

} // verus!
