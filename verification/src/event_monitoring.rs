//! Contract event monitoring: the pattern language that selects events,
//! routes, per-event and rate-based alerts, triggers, and the persisted
//! event record.

use vstd::prelude::*;
use crate::text::{
    chars_eq, chars_of, contains, contains_seq, decimal, decimal_string, eq_str, is_prefix, join,
    join_spec, lemma_string_views_push, lemma_trim_len, parse_unsigned, parse_unsigned_spec,
    push_str, slice_chars, split, split_once, split_once_spec, split_spec, starts_with_str,
    string_of, string_views, to_lowercase, to_owned_string, trim, trim_chars, trim_str,
    unicode_lowercase, views,
};

verus! {

// ── Events ─────────────────────────────────────────────────────────────────────

/// A contract event as received from the RPC stream.
#[derive(Debug, Clone)]
pub struct SorobanEvent {
    pub event_type: String,
    pub ledger: u32,
    pub id: String,
    pub topic: Vec<String>,
    /// The event value, as its JSON text.
    pub value: String,
}

/// Unicode lower-casing (`str::to_lowercase`).
pub open spec fn lower(s: Seq<char>) -> Seq<char> {
    unicode_lowercase(s)
}

/// The text a plain pattern term is searched in: type, ledger, id, topics
/// and value, separated by spaces.
pub open spec fn search_text(e: SorobanEvent) -> Seq<char> {
    e.event_type@ + " "@ + decimal(e.ledger as nat) + " "@ + e.id@ + " "@ + join_spec(
        string_views(e.topic@),
        " "@,
    ) + " "@ + e.value@
}

/// The searchable text of an event.
pub fn event_search_text(event: &SorobanEvent) -> (r: String)
    ensures
        r@ == search_text(*event),
{
    let mut s = to_owned_string(event.event_type.as_str());
    push_str(&mut s, " ");
    push_str(&mut s, decimal_string(event.ledger as u64).as_str());
    push_str(&mut s, " ");
    push_str(&mut s, event.id.as_str());
    push_str(&mut s, " ");
    push_str(&mut s, join(&event.topic, " ").as_str());
    push_str(&mut s, " ");
    push_str(&mut s, event.value.as_str());
    s
}

// ── Pattern language ──────────────────────────────────────────────────────────

/// The ledger comparison operators, in the order they are tried.
pub open spec fn ledger_ops() -> Seq<Seq<char>> {
    seq![">="@, "<="@, ">"@, "<"@, "="@]
}

/// Index of the first operator (from `k` on) that `expr` starts with.
pub open spec fn first_op(expr: Seq<char>, k: int) -> Option<int>
    decreases 5 - k,
{
    if k < 0 || k >= 5 {
        None
    } else if is_prefix(ledger_ops()[k], expr) {
        Some(k)
    } else {
        first_op(expr, k + 1)
    }
}

/// `ledger OP N`: `None` when `expr` is no operator followed by a `u32`.
pub open spec fn compare_ledger_spec(ledger: u32, expr: Seq<char>) -> Option<bool> {
    match first_op(expr, 0) {
        None => None,
        Some(k) => match parse_unsigned_spec(
            trim(expr.skip(ledger_ops()[k].len() as int)),
            u32::MAX as nat,
        ) {
            None => None,
            Some(n) => Some(
                if k == 0 {
                    ledger >= n
                } else if k == 1 {
                    ledger <= n
                } else if k == 2 {
                    ledger > n
                } else if k == 3 {
                    ledger < n
                } else {
                    ledger == n
                },
            ),
        },
    }
}

/// Whether one (lower-cased, trimmed) term matches an event.
pub open spec fn term_matches_spec(e: SorobanEvent, t: Seq<char>) -> bool
    decreases t.len(),
{
    if t.len() > 0 && t[0] == '!' {
        proof {
            lemma_trim_len(t.drop_first());
        }
        !term_matches_spec(e, trim(t.drop_first()))
    } else if is_prefix("ledger"@, t) && compare_ledger_spec(e.ledger, trim(t.skip(6))) is Some {
        compare_ledger_spec(e.ledger, trim(t.skip(6)))->0
    } else {
        match split_once_spec(t, '~') {
            Some((f, n)) => {
                let field = trim(f);
                let needle = trim(n);
                if field == "type"@ {
                    contains_seq(lower(e.event_type@), needle)
                } else if field == "topic"@ {
                    exists|i: int|
                        0 <= i < e.topic@.len() && contains_seq(lower(#[trigger] e.topic@[i]@), needle)
                } else if field == "value"@ {
                    contains_seq(lower(e.value@), needle)
                } else if field == "id"@ {
                    contains_seq(lower(e.id@), needle)
                } else {
                    contains_seq(lower(search_text(e)), t)
                }
            },
            None => contains_seq(lower(search_text(e)), t),
        }
    }
}

/// The trimmed, non-empty pieces of `parts`, in order.
pub open spec fn nonempty_terms(parts: Seq<Seq<char>>) -> Seq<Seq<char>>
    decreases parts.len(),
{
    if parts.len() == 0 {
        Seq::empty()
    } else {
        let rest = nonempty_terms(parts.drop_last());
        let t = trim(parts.last());
        if t.len() == 0 {
            rest
        } else {
            rest.push(t)
        }
    }
}

/// An `&`-alternative matches when it has a term and every term matches.
pub open spec fn alternative_matches(e: SorobanEvent, alt: Seq<char>) -> bool {
    let ts = nonempty_terms(split_spec(alt, '&'));
    ts.len() > 0 && forall|i: int| 0 <= i < ts.len() ==> term_matches_spec(e, #[trigger] ts[i])
}

/// Whether a pattern expression matches an event. The pattern is trimmed and
/// lower-cased; empty or `*` matches everything; `|` separates alternatives
/// and `&` the terms of one alternative (`&` binds tighter); `!term` negates;
/// `field~text` scopes a substring search to `type`, `topic`, `value` or `id`;
/// `ledger>N` (and `>=`, `<`, `<=`, `=`) compares the ledger; any other term
/// is searched in the whole event text.
pub open spec fn pattern_matches(e: SorobanEvent, p: Seq<char>) -> bool {
    let q = lower(trim(p));
    q.len() == 0 || q == "*"@ || exists|i: int|
        0 <= i < split_spec(q, '|').len() && alternative_matches(e, #[trigger] split_spec(q, '|')[i])
}

/// Lower-cased characters of a string.
fn lower_chars(s: &str) -> (r: Vec<char>)
    ensures
        r@ == lower(s@),
        crate::text::ascii_without_upper(s@) ==> r@ == s@,
{
    let l = to_lowercase(s);
    chars_of(l.as_str())
}

/// `ledger OP N`.
#[verifier::loop_isolation(false)]
fn compare_ledger(ledger: u32, expr: &[char]) -> (r: Option<bool>)
    ensures
        r == compare_ledger_spec(ledger, expr@),
{
    proof {
        reveal_strlit(">=");
        reveal_strlit("<=");
        reveal_strlit(">");
        reveal_strlit("<");
        reveal_strlit("=");
    }
    let mut k: usize = 0;
    while k < 5
        invariant
            k <= 5,
            first_op(expr@, 0) == first_op(expr@, k as int),
        decreases 5 - k,
    {
        let op: &str = if k == 0 {
            ">="
        } else if k == 1 {
            "<="
        } else if k == 2 {
            ">"
        } else if k == 3 {
            "<"
        } else {
            "="
        };
        assert(op@ == ledger_ops()[k as int]);
        if starts_with_str(expr, op) {
            let oplen: usize = if k < 2 {
                2
            } else {
                1
            };
            assert(oplen == op@.len());
            let rest = slice_chars(expr, oplen, expr.len());
            assert(rest@ =~= expr@.skip(oplen as int));
            let t = trim_chars(&rest);
            return match parse_unsigned(&t, 0xffff_ffff) {
                None => None,
                Some(n) => {
                    let n = n as u32;
                    Some(
                        if k == 0 {
                            ledger >= n
                        } else if k == 1 {
                            ledger <= n
                        } else if k == 2 {
                            ledger > n
                        } else if k == 3 {
                            ledger < n
                        } else {
                            ledger == n
                        },
                    )
                },
            };
        }
        k += 1;
    }
    None
}

/// Whether one term matches an event.
#[verifier::loop_isolation(false)]
fn term_matches(event: &SorobanEvent, t: &[char]) -> (r: bool)
    ensures
        r == term_matches_spec(*event, t@),
    decreases t@.len(),
{
    proof {
        reveal_strlit("ledger");
        reveal_strlit("type");
        reveal_strlit("topic");
        reveal_strlit("value");
        reveal_strlit("id");
    }
    if t.len() > 0 && t[0] == '!' {
        let rest = slice_chars(t, 1, t.len());
        assert(rest@ =~= t@.drop_first());
        let inner = trim_chars(&rest);
        proof {
            lemma_trim_len(t@.drop_first());
        }
        return !term_matches(event, &inner);
    }
    if starts_with_str(t, "ledger") {
        let rest = slice_chars(t, 6, t.len());
        assert(rest@ =~= t@.skip(6));
        let expr = trim_chars(&rest);
        match compare_ledger(event.ledger, &expr) {
            Some(b) => {
                return b;
            },
            None => {},
        }
    }
    match split_once(t, '~') {
        Some((f, n)) => {
            let field = trim_chars(&f);
            let needle = trim_chars(&n);
            if eq_str(&field, "type") {
                contains(&lower_chars(event.event_type.as_str()), &needle)
            } else if eq_str(&field, "topic") {
                let mut i: usize = 0;
                while i < event.topic.len()
                    invariant
                        i <= event.topic@.len(),
                        forall|j: int|
                            0 <= j < i ==> !contains_seq(lower(#[trigger] event.topic@[j]@), needle@),
                    decreases event.topic@.len() - i,
                {
                    if contains(&lower_chars(event.topic[i].as_str()), &needle) {
                        assert(contains_seq(lower(event.topic@[i as int]@), needle@));
                        return true;
                    }
                    i += 1;
                }
                false
            } else if eq_str(&field, "value") {
                contains(&lower_chars(event.value.as_str()), &needle)
            } else if eq_str(&field, "id") {
                contains(&lower_chars(event.id.as_str()), &needle)
            } else {
                let text = event_search_text(event);
                contains(&lower_chars(text.as_str()), t)
            }
        },
        None => {
            let text = event_search_text(event);
            contains(&lower_chars(text.as_str()), t)
        },
    }
}

/// Whether an `&`-alternative matches an event.
#[verifier::loop_isolation(false)]
fn alternative_matches_exec(event: &SorobanEvent, alt: &[char]) -> (r: bool)
    ensures
        r == alternative_matches(*event, alt@),
{
    let parts = split(alt, '&');
    let ghost pv = views(parts@);
    let mut terms: Vec<Vec<char>> = Vec::new();
    let mut i: usize = 0;
    while i < parts.len()
        invariant
            i <= parts@.len(),
            pv == views(parts@),
            views(terms@) == nonempty_terms(pv.take(i as int)),
        decreases parts@.len() - i,
    {
        let t = trim_chars(&parts[i]);
        proof {
            assert(pv.take(i + 1).drop_last() =~= pv.take(i as int));
            assert(pv.take(i + 1).last() == parts@[i as int]@);
        }
        if t.len() > 0 {
            let ghost before = terms@;
            terms.push(t);
            assert(views(terms@) =~= views(before).push(t@));
        }
        i += 1;
    }
    assert(pv.take(i as int) =~= pv);
    if terms.len() == 0 {
        return false;
    }
    let mut k: usize = 0;
    while k < terms.len()
        invariant
            k <= terms@.len(),
            forall|j: int| 0 <= j < k ==> term_matches_spec(*event, #[trigger] views(terms@)[j]),
        decreases terms@.len() - k,
    {
        assert(views(terms@)[k as int] == terms@[k as int]@);
        if !term_matches(event, &terms[k]) {
            assert(!term_matches_spec(*event, views(terms@)[k as int]));
            return false;
        }
        k += 1;
    }
    true
}

/// Whether a pattern expression matches an event (see [`pattern_matches`]).
#[verifier::loop_isolation(false)]
pub fn event_matches_pattern(event: &SorobanEvent, pattern: &str) -> (r: bool)
    ensures
        r == pattern_matches(*event, pattern@),
        forall|n: u32| pattern@ == "ledger>="@ + #[trigger] decimal(n as nat) ==> r == (event.ledger >= n),
        forall|n: u32| pattern@ == "ledger<="@ + #[trigger] decimal(n as nat) ==> r == (event.ledger <= n),
        forall|n: u32| pattern@ == "ledger>"@ + #[trigger] decimal(n as nat) ==> r == (event.ledger > n),
        forall|n: u32| pattern@ == "ledger<"@ + #[trigger] decimal(n as nat) ==> r == (event.ledger < n),
        forall|n: u32| pattern@ == "ledger="@ + #[trigger] decimal(n as nat) ==> r == (event.ledger == n),
{
    proof {
        reveal_strlit("*");
    }
    let trimmed = string_of(&trim_str(pattern));
    let q = lower_chars(trimmed.as_str());
    assert(q@ == lower(trim(pattern@)));
    proof {
        assert forall|k: int, n: u32| 0 <= k < 5 && pattern@ == #[trigger] ledger_term_text(k, n) implies pattern_matches(
            *event,
            pattern@,
        ) == term_matches_spec(*event, pattern@) by {
            lemma_ledger_term_text(k, n);
            assert(q@ == pattern@);
            lemma_single_term_pattern(*event, pattern@);
        }
        law_ledger_comparison_terms(*event, 0);
        assert forall|n: u32| pattern@ == "ledger>="@ + #[trigger] decimal(n as nat) implies pattern_matches(
            *event,
            pattern@,
        ) == (event.ledger >= n) by {
            law_ledger_comparison_terms(*event, n);
            assert(pattern@ == ledger_term_text(0, n));
        }
        assert forall|n: u32| pattern@ == "ledger<="@ + #[trigger] decimal(n as nat) implies pattern_matches(
            *event,
            pattern@,
        ) == (event.ledger <= n) by {
            law_ledger_comparison_terms(*event, n);
            assert(pattern@ == ledger_term_text(1, n));
        }
        assert forall|n: u32| pattern@ == "ledger>"@ + #[trigger] decimal(n as nat) implies pattern_matches(
            *event,
            pattern@,
        ) == (event.ledger > n) by {
            law_ledger_comparison_terms(*event, n);
            assert(pattern@ == ledger_term_text(2, n));
        }
        assert forall|n: u32| pattern@ == "ledger<"@ + #[trigger] decimal(n as nat) implies pattern_matches(
            *event,
            pattern@,
        ) == (event.ledger < n) by {
            law_ledger_comparison_terms(*event, n);
            assert(pattern@ == ledger_term_text(3, n));
        }
        assert forall|n: u32| pattern@ == "ledger="@ + #[trigger] decimal(n as nat) implies pattern_matches(
            *event,
            pattern@,
        ) == (event.ledger == n) by {
            law_ledger_comparison_terms(*event, n);
            assert(pattern@ == ledger_term_text(4, n));
        }
    }
    if q.len() == 0 || eq_str(&q, "*") {
        return true;
    }
    let alts = split(&q, '|');
    let mut i: usize = 0;
    while i < alts.len()
        invariant
            i <= alts@.len(),
            views(alts@) == split_spec(q@, '|'),
            forall|j: int| 0 <= j < i ==> !alternative_matches(*event, #[trigger] split_spec(q@, '|')[j]),
        decreases alts@.len() - i,
    {
        assert(views(alts@)[i as int] == alts@[i as int]@);
        if alternative_matches_exec(event, &alts[i]) {
            assert(split_spec(q@, '|')[i as int] == alts@[i as int]@);
            return true;
        }
        assert(split_spec(q@, '|')[i as int] == alts@[i as int]@);
        i += 1;
    }
    false
}

/// `ledger` followed by the comparison operator `k` and the decimal text of
/// `n`.
pub open spec fn ledger_term_text(k: int, n: u32) -> Seq<char> {
    "ledger"@ + ledger_ops()[k] + decimal(n as nat)
}

/// `p` differs from `s` at index `i`, so it is no prefix of it.
proof fn lemma_not_prefix_at(p: Seq<char>, s: Seq<char>, i: int)
    requires
        0 <= i < p.len(),
        i < s.len(),
        p[i] != s[i],
    ensures
        !is_prefix(p, s),
{
    if is_prefix(p, s) {
        assert(s.take(p.len() as int)[i] == s[i]);
    }
}

/// Operator `k` followed by a number is read as operator `k` and that
/// number.
proof fn lemma_ledger_operand(k: int, n: u32)
    requires
        0 <= k < 5,
    ensures
        first_op(ledger_ops()[k] + decimal(n as nat), 0) == Some(k),
        (ledger_ops()[k] + decimal(n as nat)).skip(ledger_ops()[k].len() as int) == decimal(n as nat),
        trim(decimal(n as nat)) == decimal(n as nat),
        parse_unsigned_spec(decimal(n as nat), u32::MAX as nat) == Some(n as nat),
        ledger_ops()[k].len() > 0,
        !crate::text::is_ws((ledger_ops()[k] + decimal(n as nat))[0]),
        !crate::text::is_ws((ledger_ops()[k] + decimal(n as nat)).last()),
{
    reveal_strlit(">=");
    reveal_strlit("<=");
    reveal_strlit(">");
    reveal_strlit("<");
    reveal_strlit("=");
    let d = decimal(n as nat);
    crate::text::lemma_decimal_digits(n as nat);
    assert(crate::text::is_digit(d[0]));
    assert(crate::text::is_digit(d[d.len() - 1]));
    crate::text::lemma_trim_unchanged(d);
    assert(crate::text::unsigned_digits(d) == d);
    let op = ledger_ops()[k];
    let e = op + d;
    assert(e.skip(op.len() as int) =~= d);
    assert(e.last() == d.last());
    assert(e[0] == op[0]);
    if op.len() == 1 {
        assert(e[1] == d[0]);
    } else {
        assert(e[1] == op[1]);
    }
    assert(is_prefix(op, e)) by {
        assert(e.take(op.len() as int) =~= op);
    }
    if k > 0 {
        lemma_not_prefix_at(">="@, e, if k == 2 { 1 } else { 0 });
    }
    if k > 1 {
        lemma_not_prefix_at("<="@, e, if k == 3 { 1 } else { 0 });
    }
    if k > 2 {
        lemma_not_prefix_at(">"@, e, 0);
    }
    if k > 3 {
        lemma_not_prefix_at("<"@, e, 0);
    }
    assert(first_op(e, k) == Some(k));
    if k > 3 {
        assert(first_op(e, 3) == first_op(e, 4));
    }
    if k > 2 {
        assert(first_op(e, 2) == first_op(e, 3));
    }
    if k > 1 {
        assert(first_op(e, 1) == first_op(e, 2));
    }
    if k > 0 {
        assert(first_op(e, 0) == first_op(e, 1));
    }
}

/// The ledger term text is trimmed ASCII without upper-case letters, longer
/// than one character, with no `|` and no `&`.
proof fn lemma_ledger_term_text(k: int, n: u32)
    requires
        0 <= k < 5,
    ensures
        ledger_term_text(k, n).len() > 1,
        trim(ledger_term_text(k, n)) == ledger_term_text(k, n),
        crate::text::ascii_without_upper(ledger_term_text(k, n)),
        forall|i: int|
            0 <= i < ledger_term_text(k, n).len() ==> #[trigger] ledger_term_text(k, n)[i] != '|'
                && ledger_term_text(k, n)[i] != '&',
{
    reveal_strlit("ledger");
    reveal_strlit(">=");
    reveal_strlit("<=");
    reveal_strlit(">");
    reveal_strlit("<");
    reveal_strlit("=");
    lemma_ledger_operand(k, n);
    let d = decimal(n as nat);
    crate::text::lemma_decimal_digits(n as nat);
    let op = ledger_ops()[k];
    let t = ledger_term_text(k, n);
    let w = "ledger"@;
    assert(t.last() == d.last());
    assert(t[0] == 'l');
    assert forall|i: int| 0 <= i < t.len() implies (#[trigger] t[i] as u32) < 128 && !('A' <= t[i] && t[i]
        <= 'Z') && t[i] != '|' && t[i] != '&' by {
        if i < 6 {
            assert(t[i] == w[i]);
        } else if i < 6 + op.len() {
            assert(t[i] == op[i - 6]);
        } else {
            assert(t[i] == d[i - 6 - op.len()]);
            assert(crate::text::is_digit(d[i - 6 - op.len()]));
        }
    }
    crate::text::lemma_trim_unchanged(t);
}

/// A pattern that is one trimmed, lower-case term, with no `|` and no `&`,
/// matches exactly when that term does.
proof fn lemma_single_term_pattern(e: SorobanEvent, p: Seq<char>)
    requires
        p.len() > 1,
        trim(p) == p,
        lower(trim(p)) == p,
        forall|i: int| 0 <= i < p.len() ==> #[trigger] p[i] != '|' && p[i] != '&',
    ensures
        pattern_matches(e, p) == term_matches_spec(e, p),
{
    reveal_strlit("*");
    crate::text::lemma_split_absent(p, '|');
    crate::text::lemma_split_absent(p, '&');
    assert(seq![p].drop_last() =~= Seq::<Seq<char>>::empty());
    assert(seq![p].last() == p);
    assert(nonempty_terms(Seq::<Seq<char>>::empty()) == Seq::<Seq<char>>::empty());
    assert(nonempty_terms(seq![p]) == Seq::<Seq<char>>::empty().push(p));
    assert(nonempty_terms(seq![p]) =~= seq![p]);
    assert(split_spec(p, '|')[0] == p);
    if term_matches_spec(e, p) {
        assert(alternative_matches(e, split_spec(p, '|')[0]));
    }
}

/// The ledger comparisons of the pattern language: `ledger>=N`,
/// `ledger<=N`, `ledger>N`, `ledger<N` and `ledger=N` compare the event's
/// ledger with the number `N`.
pub proof fn law_ledger_comparison_terms(e: SorobanEvent, n: u32)
    ensures
        term_matches_spec(e, "ledger>="@ + decimal(n as nat)) == (e.ledger >= n),
        term_matches_spec(e, "ledger<="@ + decimal(n as nat)) == (e.ledger <= n),
        term_matches_spec(e, "ledger>"@ + decimal(n as nat)) == (e.ledger > n),
        term_matches_spec(e, "ledger<"@ + decimal(n as nat)) == (e.ledger < n),
        term_matches_spec(e, "ledger="@ + decimal(n as nat)) == (e.ledger == n),
        "ledger>="@ + decimal(n as nat) == ledger_term_text(0, n),
        "ledger<="@ + decimal(n as nat) == ledger_term_text(1, n),
        "ledger>"@ + decimal(n as nat) == ledger_term_text(2, n),
        "ledger<"@ + decimal(n as nat) == ledger_term_text(3, n),
        "ledger="@ + decimal(n as nat) == ledger_term_text(4, n),
{
    reveal_strlit("ledger");
    reveal_strlit("ledger>=");
    reveal_strlit("ledger<=");
    reveal_strlit("ledger>");
    reveal_strlit("ledger<");
    reveal_strlit("ledger=");
    reveal_strlit(">=");
    reveal_strlit("<=");
    reveal_strlit(">");
    reveal_strlit("<");
    reveal_strlit("=");
    let d = decimal(n as nat);
    assert("ledger>="@ + d =~= ledger_term_text(0, n));
    assert("ledger<="@ + d =~= ledger_term_text(1, n));
    assert("ledger>"@ + d =~= ledger_term_text(2, n));
    assert("ledger<"@ + d =~= ledger_term_text(3, n));
    assert("ledger="@ + d =~= ledger_term_text(4, n));
    lemma_ledger_term(e, 0, n);
    lemma_ledger_term(e, 1, n);
    lemma_ledger_term(e, 2, n);
    lemma_ledger_term(e, 3, n);
    lemma_ledger_term(e, 4, n);
}

/// The term `ledger`, operator `k`, number `n` compares the ledger with `n`.
proof fn lemma_ledger_term(e: SorobanEvent, k: int, n: u32)
    requires
        0 <= k < 5,
    ensures
        term_matches_spec(e, ledger_term_text(k, n)) == (if k == 0 {
            e.ledger >= n
        } else if k == 1 {
            e.ledger <= n
        } else if k == 2 {
            e.ledger > n
        } else if k == 3 {
            e.ledger < n
        } else {
            e.ledger == n
        }),
{
    reveal_strlit("ledger");
    lemma_ledger_operand(k, n);
    let d = decimal(n as nat);
    let op = ledger_ops()[k];
    let t = ledger_term_text(k, n);
    let rest = op + d;
    assert(t[0] == 'l');
    assert(t.take(6) =~= "ledger"@);
    assert(t.skip(6) =~= rest);
    crate::text::lemma_trim_unchanged(rest);
    assert(compare_ledger_spec(e.ledger, rest) is Some);
}

/// `w~n` splits at the `~` after the field word `w`.
proof fn lemma_field_term_split(w: Seq<char>, n: Seq<char>)
    requires
        w.len() > 0,
        forall|i: int| 0 <= i < w.len() ==> #[trigger] w[i] != '~',
    ensures
        split_once_spec(w + "~"@ + n, '~') == Some((w, n)),
{
    reveal_strlit("~");
    let t = w + "~"@ + n;
    let k = w.len() as int;
    assert(t[k] == '~');
    assert forall|j: int| 0 <= j < k implies t[j] != '~' by {
        assert(t[j] == w[j]);
    }
    crate::text::lemma_first_index_unique(t, '~', k);
    assert(t.take(k) =~= w);
    assert(t.skip(k + 1) =~= n);
}

/// `!x` matches an event exactly when the trimmed term `x` does not.
pub proof fn law_negated_term(e: SorobanEvent, t: Seq<char>)
    ensures
        term_matches_spec(e, "!"@ + t) == !term_matches_spec(e, trim(t)),
{
    reveal_strlit("!");
    assert(("!"@ + t)[0] == '!');
    assert(("!"@ + t).drop_first() =~= t);
}

/// Field-scoped terms: `type~x`, `topic~x`, `value~x` and `id~x` search the
/// trimmed text `x` in the lower-cased event type, in each lower-cased
/// topic, in the lower-cased value and in the lower-cased id.
pub proof fn law_field_scoped_terms(e: SorobanEvent, n: Seq<char>)
    ensures
        term_matches_spec(e, "type~"@ + n) == contains_seq(lower(e.event_type@), trim(n)),
        term_matches_spec(e, "topic~"@ + n) == exists|i: int|
            0 <= i < e.topic@.len() && contains_seq(lower(#[trigger] e.topic@[i]@), trim(n)),
        term_matches_spec(e, "value~"@ + n) == contains_seq(lower(e.value@), trim(n)),
        term_matches_spec(e, "id~"@ + n) == contains_seq(lower(e.id@), trim(n)),
{
    reveal_strlit("type~");
    reveal_strlit("topic~");
    reveal_strlit("value~");
    reveal_strlit("id~");
    reveal_strlit("type");
    reveal_strlit("topic");
    reveal_strlit("value");
    reveal_strlit("id");
    reveal_strlit("~");
    reveal_strlit("ledger");
    lemma_field_term(e, "type"@, n);
    lemma_field_term(e, "topic"@, n);
    lemma_field_term(e, "value"@, n);
    lemma_field_term(e, "id"@, n);
}

/// The term `w~n`, for a field word `w`, is read as a search scoped to `w`.
proof fn lemma_field_term(e: SorobanEvent, w: Seq<char>, n: Seq<char>)
    requires
        w == "type"@ || w == "topic"@ || w == "value"@ || w == "id"@,
    ensures
        w + "~"@ + n == (if w == "type"@ {
            "type~"@
        } else if w == "topic"@ {
            "topic~"@
        } else if w == "value"@ {
            "value~"@
        } else {
            "id~"@
        }) + n,
        term_matches_spec(e, w + "~"@ + n) == if w == "type"@ {
            contains_seq(lower(e.event_type@), trim(n))
        } else if w == "topic"@ {
            exists|i: int| 0 <= i < e.topic@.len() && contains_seq(lower(#[trigger] e.topic@[i]@), trim(n))
        } else if w == "value"@ {
            contains_seq(lower(e.value@), trim(n))
        } else {
            contains_seq(lower(e.id@), trim(n))
        },
{
    reveal_strlit("type~");
    reveal_strlit("topic~");
    reveal_strlit("value~");
    reveal_strlit("id~");
    reveal_strlit("type");
    reveal_strlit("topic");
    reveal_strlit("value");
    reveal_strlit("id");
    reveal_strlit("~");
    reveal_strlit("ledger");
    let t = w + "~"@ + n;
    assert(w.len() > 0);
    assert(forall|i: int| 0 <= i < w.len() ==> #[trigger] w[i] != '~');
    lemma_field_term_split(w, n);
    assert(t[0] == w[0]);
    assert(t[0] != '!');
    assert(!is_prefix("ledger"@, t)) by {
        if is_prefix("ledger"@, t) {
            assert(t.take(6)[0] == t[0]);
        }
    }
    crate::text::lemma_trim_unchanged(w);
    if w == "type"@ {
        assert(w + "~"@ =~= "type~"@);
    } else if w == "topic"@ {
        assert(w + "~"@ =~= "topic~"@);
    } else if w == "value"@ {
        assert(w + "~"@ =~= "value~"@);
    } else {
        assert(w + "~"@ =~= "id~"@);
    }
}

// ── Severities ────────────────────────────────────────────────────────────────

/// Rank of a lower-cased severity label (unknown labels rank like `info`).
pub open spec fn rank_of(s: Seq<char>) -> u8 {
    if s == "low"@ {
        1
    } else if s == "medium"@ {
        2
    } else if s == "high"@ {
        3
    } else if s == "critical"@ {
        4
    } else {
        0
    }
}

/// Rank of a severity label, compared case-insensitively.
pub fn severity_rank(severity: &str) -> (r: u8)
    ensures
        r == rank_of(lower(severity@)),
{
    let s = lower_chars(severity);
    if eq_str(&s, "low") {
        1
    } else if eq_str(&s, "medium") {
        2
    } else if eq_str(&s, "high") {
        3
    } else if eq_str(&s, "critical") {
        4
    } else {
        0
    }
}

/// The severity labels, lower-case.
pub open spec fn is_severity_label(s: Seq<char>) -> bool {
    s == "info"@ || s == "low"@ || s == "medium"@ || s == "high"@ || s == "critical"@
}

/// Whether a value names a severity, ignoring case.
pub fn is_severity(value: &str) -> (r: bool)
    ensures
        r == is_severity_label(lower(value@)),
{
    let s = lower_chars(value);
    eq_str(&s, "info") || eq_str(&s, "low") || eq_str(&s, "medium") || eq_str(&s, "high")
        || eq_str(&s, "critical")
}


// ── Routes ─────────────────────────────────────────────────────────────────────

/// A named pattern: events it matches are tagged with the name.
#[derive(Debug, Clone, PartialEq, Eq)]
pub struct EventRoute {
    pub name: String,
    pub pattern: String,
}

/// `'` + `spec` + `'` inside a message.
pub open spec fn quoted(spec: Seq<char>) -> Seq<char> {
    "'"@ + spec + "'"@
}

/// `name=pattern`, both parts trimmed and non-empty.
pub open spec fn parse_route_spec(spec: Seq<char>) -> Result<(Seq<char>, Seq<char>), Seq<char>> {
    match split_once_spec(spec, '=') {
        None => Err("invalid route "@ + quoted(spec) + "; expected name=pattern (example: swaps=swap)"@),
        Some((n, p)) => if trim(n).len() == 0 || trim(p).len() == 0 {
            Err("invalid route "@ + quoted(spec) + "; name and pattern cannot be empty"@)
        } else {
            Ok((trim(n), trim(p)))
        },
    }
}

/// Splits `spec` at its first `sep` into trimmed halves; the messages are
/// the refusals for a missing separator and for an empty half.
fn parse_pair(
    spec: &str,
    sep: char,
    head: &str,
    missing: &str,
    empty: &str,
) -> (r: Result<(String, String), String>)
    ensures
        match split_once_spec(spec@, sep) {
            None => r matches Err(m) && m@ == head@ + quoted(spec@) + missing@,
            Some((a, b)) => if trim(a).len() == 0 || trim(b).len() == 0 {
                r matches Err(m) && m@ == head@ + quoted(spec@) + empty@
            } else {
                r matches Ok((x, y)) && x@ == trim(a) && y@ == trim(b)
            },
        },
{
    let chars = chars_of(spec);
    let mut msg = to_owned_string(head);
    push_str(&mut msg, "'");
    push_str(&mut msg, spec);
    push_str(&mut msg, "'");
    match split_once(&chars, sep) {
        None => {
            push_str(&mut msg, missing);
            Err(msg)
        },
        Some((a, b)) => {
            let x = trim_chars(&a);
            let y = trim_chars(&b);
            if x.len() == 0 || y.len() == 0 {
                push_str(&mut msg, empty);
                Err(msg)
            } else {
                Ok((string_of(&x), string_of(&y)))
            }
        },
    }
}

/// Parses a route `name=pattern`.
pub fn parse_route(spec: &str) -> (r: Result<EventRoute, String>)
    ensures
        match parse_route_spec(spec@) {
            Ok((n, p)) => r matches Ok(route) && route.name@ == n && route.pattern@ == p,
            Err(m) => r matches Err(e) && e@ == m,
        },
{
    match parse_pair(
        spec,
        '=',
        "invalid route ",
        "; expected name=pattern (example: swaps=swap)",
        "; name and pattern cannot be empty",
    ) {
        Ok((name, pattern)) => Ok(EventRoute { name, pattern }),
        Err(m) => Err(m),
    }
}

/// Routes events to the names of the routes whose pattern they match.
#[derive(Debug, Clone)]
pub struct EventRouter {
    routes: Vec<EventRoute>,
}

/// The (name, pattern) pairs of some routes.
pub open spec fn route_views(routes: Seq<EventRoute>) -> Seq<(Seq<char>, Seq<char>)> {
    routes.map_values(|r: EventRoute| (r.name@, r.pattern@))
}

/// Names of the routes that match `e`, in route order.
pub open spec fn matching_names(routes: Seq<(Seq<char>, Seq<char>)>, e: SorobanEvent) -> Seq<Seq<char>>
    decreases routes.len(),
{
    if routes.len() == 0 {
        Seq::empty()
    } else {
        let rest = matching_names(routes.drop_last(), e);
        if pattern_matches(e, routes.last().1) {
            rest.push(routes.last().0)
        } else {
            rest
        }
    }
}

impl EventRouter {
    /// The routes, as (name, pattern) pairs.
    pub closed spec fn view_routes(&self) -> Seq<(Seq<char>, Seq<char>)> {
        route_views(self.routes@)
    }

    pub fn new(routes: Vec<EventRoute>) -> (r: Self)
        ensures
            r.view_routes() == route_views(routes@),
    {
        EventRouter { routes }
    }

    /// Parses every `name=pattern` spec; the first malformed one is reported.
    pub fn from_specs(specs: &[String]) -> (r: Result<Self, String>)
        ensures
            match r {
                Ok(router) => router.view_routes().len() == specs@.len() && forall|i: int|
                    0 <= i < specs@.len() ==> parse_route_spec(#[trigger] specs@[i]@) == Ok::<
                        (Seq<char>, Seq<char>),
                        Seq<char>,
                    >(router.view_routes()[i]),
                Err(m) => exists|i: int|
                    0 <= i < specs@.len() && parse_route_spec(#[trigger] specs@[i]@) == Err::<
                        (Seq<char>, Seq<char>),
                        Seq<char>,
                    >(m@) && forall|j: int| 0 <= j < i ==> parse_route_spec(#[trigger] specs@[j]@) is Ok,
            },
    {
        let mut routes: Vec<EventRoute> = Vec::new();
        let mut i: usize = 0;
        while i < specs.len()
            invariant
                i <= specs@.len(),
                routes@.len() == i,
                forall|j: int|
                    0 <= j < i ==> parse_route_spec(#[trigger] specs@[j]@) == Ok::<
                        (Seq<char>, Seq<char>),
                        Seq<char>,
                    >(route_views(routes@)[j]),
            decreases specs@.len() - i,
        {
            match parse_route(specs[i].as_str()) {
                Ok(route) => {
                    routes.push(route);
                },
                Err(m) => {
                    assert(forall|j: int| 0 <= j < i ==> parse_route_spec(#[trigger] specs@[j]@) is Ok);
                    return Err(m);
                },
            }
            i += 1;
        }
        Ok(EventRouter { routes })
    }

    pub fn is_empty(&self) -> (r: bool)
        ensures
            r == (self.view_routes().len() == 0),
    {
        self.routes.len() == 0
    }

    /// Names of the routes that match the event, in route order.
    pub fn route(&self, event: &SorobanEvent) -> (r: Vec<String>)
        ensures
            string_views(r@) == matching_names(self.view_routes(), *event),
    {
        let mut names: Vec<String> = Vec::new();
        let mut i: usize = 0;
        while i < self.routes.len()
            invariant
                i <= self.routes@.len(),
                string_views(names@) == matching_names(route_views(self.routes@).take(i as int), *event),
            decreases self.routes@.len() - i,
        {
            let ghost rv = route_views(self.routes@);
            proof {
                assert(rv.take(i + 1).drop_last() =~= rv.take(i as int));
            }
            if event_matches_pattern(event, self.routes[i].pattern.as_str()) {
                let n = to_owned_string(self.routes[i].name.as_str());
                proof {
                    lemma_string_views_push(names@, n);
                }
                names.push(n);
            }
            i += 1;
        }
        assert(route_views(self.routes@).take(i as int) =~= route_views(self.routes@));
        names
    }
}

// ── Triggers ───────────────────────────────────────────────────────────────────

/// A shell command run for every event a pattern matches.
#[derive(Debug, Clone, PartialEq, Eq)]
pub struct EventTrigger {
    pub pattern: String,
    pub command: String,
}

/// `pattern=command`, both parts trimmed and non-empty.
pub open spec fn parse_trigger_spec(spec: Seq<char>) -> Result<(Seq<char>, Seq<char>), Seq<char>> {
    match split_once_spec(spec, '=') {
        None => Err(
            "invalid trigger "@ + quoted(spec)
                + "; expected pattern=command (example: mint=./on-mint.sh)"@,
        ),
        Some((p, c)) => if trim(p).len() == 0 || trim(c).len() == 0 {
            Err("invalid trigger "@ + quoted(spec) + "; pattern and command cannot be empty"@)
        } else {
            Ok((trim(p), trim(c)))
        },
    }
}

/// Parses a trigger `pattern=command`.
pub fn parse_trigger(spec: &str) -> (r: Result<EventTrigger, String>)
    ensures
        match parse_trigger_spec(spec@) {
            Ok((p, c)) => r matches Ok(t) && t.pattern@ == p && t.command@ == c,
            Err(m) => r matches Err(e) && e@ == m,
        },
{
    match parse_pair(
        spec,
        '=',
        "invalid trigger ",
        "; expected pattern=command (example: mint=./on-mint.sh)",
        "; pattern and command cannot be empty",
    ) {
        Ok((pattern, command)) => Ok(EventTrigger { pattern, command }),
        Err(m) => Err(m),
    }
}

impl EventTrigger {
    /// Parses every trigger spec; the first malformed one is reported.
    pub fn from_specs(specs: &[String]) -> (r: Result<Vec<EventTrigger>, String>)
        ensures
            match r {
                Ok(ts) => ts@.len() == specs@.len() && forall|i: int|
                    0 <= i < specs@.len() ==> parse_trigger_spec(#[trigger] specs@[i]@) == Ok::<
                        (Seq<char>, Seq<char>),
                        Seq<char>,
                    >((ts@[i].pattern@, ts@[i].command@)),
                Err(m) => exists|i: int|
                    0 <= i < specs@.len() && parse_trigger_spec(#[trigger] specs@[i]@) == Err::<
                        (Seq<char>, Seq<char>),
                        Seq<char>,
                    >(m@) && forall|j: int| 0 <= j < i ==> parse_trigger_spec(#[trigger] specs@[j]@) is Ok,
            },
    {
        let mut ts: Vec<EventTrigger> = Vec::new();
        let mut i: usize = 0;
        while i < specs.len()
            invariant
                i <= specs@.len(),
                ts@.len() == i,
                forall|j: int|
                    0 <= j < i ==> parse_trigger_spec(#[trigger] specs@[j]@) == Ok::<
                        (Seq<char>, Seq<char>),
                        Seq<char>,
                    >((ts@[j].pattern@, ts@[j].command@)),
            decreases specs@.len() - i,
        {
            match parse_trigger(specs[i].as_str()) {
                Ok(t) => {
                    ts.push(t);
                },
                Err(m) => {
                    assert(forall|j: int| 0 <= j < i ==> parse_trigger_spec(#[trigger] specs@[j]@) is Ok);
                    return Err(m);
                },
            }
            i += 1;
        }
        Ok(ts)
    }

    /// Whether the trigger's pattern matches the event.
    pub fn matches(&self, event: &SorobanEvent) -> (r: bool)
        ensures
            r == pattern_matches(*event, self.pattern@),
    {
        event_matches_pattern(event, self.pattern.as_str())
    }
}


// ── Alerts ─────────────────────────────────────────────────────────────────────

/// A per-event alert rule.
#[derive(Debug, Clone, PartialEq, Eq)]
pub struct EventAlertRule {
    pub id: String,
    pub severity: String,
    pub pattern: String,
    pub message: String,
}

/// An alert raised for an event.
#[derive(Debug, Clone, PartialEq, Eq)]
pub struct EventAlert {
    pub rule_id: String,
    pub severity: String,
    pub message: String,
}

/// The (rule id, severity, message) of an alert.
pub open spec fn alert_view(a: EventAlert) -> (Seq<char>, Seq<char>, Seq<char>) {
    (a.rule_id@, a.severity@, a.message@)
}

/// The views of some alerts.
pub open spec fn alert_views(v: Seq<EventAlert>) -> Seq<(Seq<char>, Seq<char>, Seq<char>)> {
    v.map_values(|a: EventAlert| alert_view(a))
}

/// `s` split at its first two `:` (`str::splitn(3, ':')`).
pub open spec fn splitn3(s: Seq<char>) -> Seq<Seq<char>> {
    match split_once_spec(s, ':') {
        None => seq![s],
        Some((a, rest)) => match split_once_spec(rest, ':') {
            None => seq![a, rest],
            Some((b, c)) => seq![a, b, c],
        },
    }
}

/// `[severity:]pattern[:message]`: the id, lower-cased severity, pattern and
/// message of the rule at position `index` (counted from zero).
pub open spec fn alert_rule_spec(spec: Seq<char>, index: nat) -> Result<
    (Seq<char>, Seq<char>, Seq<char>, Seq<char>),
    Seq<char>,
> {
    let parts = splitn3(spec);
    let sev_given = parts.len() >= 2 && is_severity_label(lower(trim(parts[0])));
    let sev = if parts.len() == 1 || !sev_given {
        "high"@
    } else {
        trim(parts[0])
    };
    let pat = if parts.len() == 1 {
        trim(parts[0])
    } else if sev_given {
        trim(parts[1])
    } else {
        trim(spec)
    };
    let msg = if parts.len() == 3 && sev_given {
        trim(parts[2])
    } else {
        Seq::empty()
    };
    if pat.len() == 0 {
        Err("invalid alert rule "@ + quoted(spec) + "; pattern cannot be empty"@)
    } else {
        Ok(
            (
                "alert-"@ + decimal(index + 1),
                lower(sev),
                pat,
                if msg.len() > 0 {
                    msg
                } else {
                    "matched event pattern "@ + quoted(pat)
                },
            ),
        )
    }
}

/// `splitn(3, ':')` on characters.
fn splitn3_exec(s: &[char]) -> (r: Vec<Vec<char>>)
    ensures
        views(r@) == splitn3(s@),
{
    match split_once(s, ':') {
        None => {
            let v = vec![copy_vec(s)];
            assert(views(v@) =~= splitn3(s@));
            v
        },
        Some((a, rest)) => match split_once(&rest, ':') {
            None => {
                let v = vec![a, rest];
                assert(views(v@) =~= splitn3(s@));
                v
            },
            Some((b, c)) => {
                let v = vec![a, b, c];
                assert(views(v@) =~= splitn3(s@));
                v
            },
        },
    }
}

fn copy_vec(s: &[char]) -> (r: Vec<char>)
    ensures
        r@ == s@,
{
    crate::text::copy_chars(s)
}

/// Views after a push.
proof fn lemma_views_push(v: Seq<Vec<char>>, x: Vec<char>)
    ensures
        views(v.push(x)) == views(v).push(x@),
{
    let a = views(v.push(x));
    let b = views(v).push(x@);
    assert forall|i: int| 0 <= i < a.len() implies a[i] == b[i] by {
        if i < v.len() {
            assert(v.push(x)[i] == v[i]);
        }
    }
    assert(a =~= b);
}

/// `"prefix" + (index + 1)`.
fn numbered(prefix: &str, index: usize) -> (r: String)
    requires
        index < usize::MAX,
    ensures
        r@ == prefix@ + decimal((index + 1) as nat),
{
    let mut s = to_owned_string(prefix);
    push_str(&mut s, decimal_string((index + 1) as u64).as_str());
    s
}

/// The rule view of an alert rule.
pub open spec fn alert_rule_view(r: EventAlertRule) -> (Seq<char>, Seq<char>, Seq<char>, Seq<char>) {
    (r.id@, r.severity@, r.pattern@, r.message@)
}

/// Parses `[severity:]pattern[:message]`.
#[verifier::spinoff_prover]
#[verifier::rlimit(60)]
pub fn parse_alert_rule(spec: &str, index: usize) -> (r: Result<EventAlertRule, String>)
    requires
        index < usize::MAX,
    ensures
        match alert_rule_spec(spec@, index as nat) {
            Ok(v) => r matches Ok(rule) && alert_rule_view(rule) == v,
            Err(m) => r matches Err(e) && e@ == m,
        },
{
    let chars = chars_of(spec);
    let parts = splitn3_exec(&chars);
    let n = parts.len();
    let sev_given = n >= 2 && is_severity(string_of(&trim_chars(&parts[0])).as_str());
    proof {
        if n >= 2 {
            assert(views(parts@)[0] == parts@[0]@);
        }
    }
    let sev: String = if n == 1 || !sev_given {
        to_owned_string("high")
    } else {
        string_of(&trim_chars(&parts[0]))
    };
    let pat: Vec<char> = if n == 1 {
        trim_chars(&parts[0])
    } else if sev_given {
        trim_chars(&parts[1])
    } else {
        trim_chars(&chars)
    };
    let msg: Vec<char> = if n == 3 && sev_given {
        trim_chars(&parts[2])
    } else {
        Vec::new()
    };
    proof {
        assert(views(parts@)[0] == parts@[0]@);
        if n >= 2 {
            assert(views(parts@)[1] == parts@[1]@);
        }
        if n == 3 {
            assert(views(parts@)[2] == parts@[2]@);
        }
    }
    if pat.len() == 0 {
        let mut m = to_owned_string("invalid alert rule '");
        push_str(&mut m, spec);
        push_str(&mut m, "'; pattern cannot be empty");
        assert(m@ =~= "invalid alert rule "@ + quoted(spec@) + "; pattern cannot be empty"@) by {
            reveal_strlit("invalid alert rule '");
            reveal_strlit("invalid alert rule ");
            reveal_strlit("'");
            reveal_strlit("'; pattern cannot be empty");
            reveal_strlit("; pattern cannot be empty");
        }
        return Err(m);
    }
    let pattern = string_of(&pat);
    let message = if msg.len() > 0 {
        string_of(&msg)
    } else {
        let mut m = to_owned_string("matched event pattern '");
        push_str(&mut m, pattern.as_str());
        push_str(&mut m, "'");
        assert(m@ =~= "matched event pattern "@ + quoted(pat@)) by {
            reveal_strlit("matched event pattern '");
            reveal_strlit("matched event pattern ");
            reveal_strlit("'");
        }
        m
    };
    Ok(
        EventAlertRule {
            id: numbered("alert-", index),
            severity: to_lowercase(sev.as_str()),
            pattern,
            message,
        },
    )
}

/// `COUNT/LEDGERS`, both positive.
pub open spec fn rate_spec(v: Seq<char>) -> Option<(nat, nat)> {
    match split_once_spec(v, '/') {
        None => None,
        Some((c, w)) => match parse_unsigned_spec(trim(c), usize::MAX as nat) {
            None => None,
            Some(a) => match parse_unsigned_spec(trim(w), u32::MAX as nat) {
                None => None,
                Some(b) => if a > 0 && b > 0 {
                    Some((a, b))
                } else {
                    None
                },
            },
        },
    }
}

/// Parses `COUNT/LEDGERS`.
pub fn parse_rate(value: &[char]) -> (r: Option<(usize, u32)>)
    ensures
        match rate_spec(value@) {
            Some((a, b)) => r == Some((a as usize, b as u32)),
            None => r is None,
        },
{
    match split_once(value, '/') {
        None => None,
        Some((c, w)) => {
            let cs = trim_chars(&c);
            let ws = trim_chars(&w);
            match parse_unsigned(&cs, usize::MAX as u64) {
                None => None,
                Some(a) => match parse_unsigned(&ws, 0xffff_ffff) {
                    None => None,
                    Some(b) => if a > 0 && b > 0 {
                        Some((a as usize, b as u32))
                    } else {
                        None
                    },
                },
            }
        },
    }
}

/// The trimmed `:`-separated parts of a spec.
pub open spec fn trimmed_parts(spec: Seq<char>) -> Seq<Seq<char>> {
    split_spec(spec, ':').map_values(|p: Seq<char>| trim(p))
}

/// The first part, from `k` on, that is a rate.
pub open spec fn first_rate_index(parts: Seq<Seq<char>>, k: int) -> Option<int>
    decreases parts.len() - k,
{
    if k < 0 || k >= parts.len() {
        None
    } else if rate_spec(parts[k]) is Some {
        Some(k)
    } else {
        first_rate_index(parts, k + 1)
    }
}

/// The usage message of a malformed rate alert.
pub open spec fn rate_usage(spec: Seq<char>) -> Seq<char> {
    "invalid rate alert "@ + quoted(spec)
        + "; expected [severity:]pattern:COUNT/LEDGERS[:message] (example: critical:transfer:5/10:transfer burst)"@
}

/// `[severity:]pattern:COUNT/LEDGERS[:message]`: id, lower-cased severity,
/// pattern, count, window and message of the rule at position `index`.
pub open spec fn rate_rule_spec(spec: Seq<char>, index: nat) -> Result<
    (Seq<char>, Seq<char>, Seq<char>, nat, nat, Seq<char>),
    Seq<char>,
> {
    let parts = trimmed_parts(spec);
    match first_rate_index(parts, 0) {
        None => Err(rate_usage(spec)),
        Some(ri) => {
            let head = parts.take(ri);
            if !(head.len() == 1 || (head.len() == 2 && is_severity_label(lower(head[0])))) {
                Err(rate_usage(spec))
            } else {
                let sev = if head.len() == 1 {
                    "high"@
                } else {
                    head[0]
                };
                let pat = if head.len() == 1 {
                    head[0]
                } else {
                    head[1]
                };
                if pat.len() == 0 {
                    Err(rate_usage(spec))
                } else {
                    let m = join_spec(parts.skip(ri + 1), ":"@);
                    let (count, window) = rate_spec(parts[ri])->0;
                    Ok(
                        (
                            "rate-alert-"@ + decimal(index + 1),
                            lower(sev),
                            pat,
                            count,
                            window,
                            if trim(m).len() == 0 {
                                "event pattern "@ + quoted(pat) + " exceeded rate threshold"@
                            } else {
                                trim(m)
                            },
                        ),
                    )
                }
            }
        },
    }
}


/// Alert rule that fires when a pattern matches at least `count` events
/// within a sliding window of `window_ledgers` ledgers. After firing it stays
/// quiet for one full window, so a sustained burst gives one alert per window.
#[derive(Debug, Clone)]
pub struct RateAlertRule {
    pub id: String,
    pub severity: String,
    pub pattern: String,
    pub count: usize,
    pub window_ledgers: u32,
    pub message: String,
    matches: Vec<u32>,
    last_fired: Option<u32>,
}

/// `a - b`, or 0.
pub open spec fn sat_sub(a: u32, b: u32) -> u32 {
    if a >= b {
        (a - b) as u32
    } else {
        0
    }
}

/// `a + b`, or `u32::MAX`.
pub open spec fn sat_add(a: u32, b: u32) -> u32 {
    if a + b <= u32::MAX {
        (a + b) as u32
    } else {
        u32::MAX
    }
}

/// The oldest ledger still inside the window that ends at `ledger`.
pub open spec fn window_start(ledger: u32, window: u32) -> u32 {
    sat_sub(ledger, sat_sub(window, 1))
}

/// Matches older than `ws` dropped from the front.
pub open spec fn drop_old(s: Seq<u32>, ws: u32) -> Seq<u32>
    decreases s.len(),
{
    if s.len() > 0 && s[0] < ws {
        drop_old(s.drop_first(), ws)
    } else {
        s
    }
}

/// One observation of a rate rule: the new window contents, the new time of
/// the last alert, and the alert (rule id, severity, message), if one fires.
pub open spec fn observe_spec(
    id: Seq<char>,
    severity: Seq<char>,
    pattern: Seq<char>,
    count: nat,
    window: u32,
    message: Seq<char>,
    matches: Seq<u32>,
    last_fired: Option<u32>,
    e: SorobanEvent,
) -> (Seq<u32>, Option<u32>, Option<(Seq<char>, Seq<char>, Seq<char>)>) {
    if !pattern_matches(e, pattern) {
        (matches, last_fired, None)
    } else {
        let m = drop_old(matches.push(e.ledger), window_start(e.ledger, window));
        let cooling = match last_fired {
            Some(f) => e.ledger < sat_add(f, window),
            None => false,
        };
        if m.len() < count || cooling {
            (m, last_fired, None)
        } else {
            (
                m,
                Some(e.ledger),
                Some(
                    (
                        id,
                        severity,
                        message + " ("@ + decimal(m.len()) + " matching events within "@ + decimal(
                            window as nat,
                        ) + " ledgers)"@,
                    ),
                ),
            )
        }
    }
}

impl RateAlertRule {
    /// Ledgers of the matches inside the current window, oldest first.
    pub closed spec fn window_matches(&self) -> Seq<u32> {
        self.matches@
    }

    /// Ledger of the last alert.
    pub closed spec fn last_fired_at(&self) -> Option<u32> {
        self.last_fired
    }

    /// An event at `ledger` falls within a window of the last alert.
    pub closed spec fn cooling_down_at(&self, ledger: u32) -> bool {
        self.last_fired matches Some(f) && ledger < sat_add(f, self.window_ledgers)
    }

    /// The result of observing `e` in this state.
    pub closed spec fn observation(&self, e: SorobanEvent) -> (Seq<u32>, Option<u32>, Option<(Seq<char>, Seq<char>, Seq<char>)>) {
        observe_spec(
            self.id@,
            self.severity@,
            self.pattern@,
            self.count as nat,
            self.window_ledgers,
            self.message@,
            self.window_matches(),
            self.last_fired_at(),
            e,
        )
    }

    /// The configuration fields are unchanged between two states.
    pub closed spec fn same_config(&self, other: &RateAlertRule) -> bool {
        &&& self.id@ == other.id@
        &&& self.severity@ == other.severity@
        &&& self.pattern@ == other.pattern@
        &&& self.count == other.count
        &&& self.window_ledgers == other.window_ledgers
        &&& self.message@ == other.message@
    }

    /// Feeds one event to the rule.
    pub fn observe(&mut self, event: &SorobanEvent) -> (r: Option<EventAlert>)
        ensures
            final(self).same_config(old(self)),
            final(self).window_matches() == old(self).observation(*event).0,
            final(self).last_fired_at() == old(self).observation(*event).1,
            match old(self).observation(*event).2 {
                Some(v) => r matches Some(a) && alert_view(a) == v,
                None => r is None,
            },
    {
        if !event_matches_pattern(event, self.pattern.as_str()) {
            return None;
        }
        let ledger = event.ledger;
        self.matches.push(ledger);
        let w1 = if self.window_ledgers >= 1 {
            self.window_ledgers - 1
        } else {
            0
        };
        let ws = if ledger >= w1 {
            ledger - w1
        } else {
            0
        };
        let ghost target = drop_old(self.matches@, ws);
        while self.matches.len() > 0 && self.matches[0] < ws
            invariant
                drop_old(self.matches@, ws) == target,
                self.same_config(old(self)),
                self.last_fired == old(self).last_fired,
            decreases self.matches@.len(),
        {
            let ghost before = self.matches@;
            self.matches.remove(0);
            assert(self.matches@ =~= before.drop_first());
        }
        let cooling = match self.last_fired {
            Some(f) => {
                let until = if f as u64 + self.window_ledgers as u64 <= 0xffff_ffff {
                    f + self.window_ledgers
                } else {
                    0xffff_ffff
                };
                ledger < until
            },
            None => false,
        };
        if self.matches.len() < self.count || cooling {
            return None;
        }
        self.last_fired = Some(ledger);
        let mut message = to_owned_string(self.message.as_str());
        push_str(&mut message, " (");
        push_str(&mut message, decimal_string(self.matches.len() as u64).as_str());
        push_str(&mut message, " matching events within ");
        push_str(&mut message, decimal_string(self.window_ledgers as u64).as_str());
        push_str(&mut message, " ledgers)");
        Some(
            EventAlert {
                rule_id: to_owned_string(self.id.as_str()),
                severity: to_owned_string(self.severity.as_str()),
                message,
            },
        )
    }
}

/// A rule in cooldown does not fire again within a window of its last alert:
/// an event at a ledger below `last + window` raises nothing.
pub proof fn law_rate_rule_cooldown(rule: RateAlertRule, e: SorobanEvent)
    requires
        rule.cooling_down_at(e.ledger),
    ensures
        rule.observation(e).2 is None,
        rule.observation(e).1 == rule.last_fired_at(),
{
}

/// Matches are only dropped from the front and only when they are older
/// than the window: the retained ledgers are the newest ones, and when the
/// window contents are in ledger order they all lie in the window.
pub proof fn law_window_keeps_recent_matches(s: Seq<u32>, ws: u32)
    ensures
        drop_old(s, ws).len() <= s.len(),
        drop_old(s, ws) == s.skip(s.len() - drop_old(s, ws).len()),
        (forall|a: int, b: int| 0 <= a <= b < s.len() ==> s[a] <= s[b]) ==> forall|i: int|
            0 <= i < drop_old(s, ws).len() ==> #[trigger] drop_old(s, ws)[i] >= ws,
    decreases s.len(),
{
    if s.len() > 0 && s[0] < ws {
        let t = s.drop_first();
        law_window_keeps_recent_matches(t, ws);
        assert(t.skip(t.len() - drop_old(s, ws).len()) =~= s.skip(s.len() - drop_old(s, ws).len()));
        if forall|a: int, b: int| 0 <= a <= b < s.len() ==> s[a] <= s[b] {
            assert forall|a: int, b: int| 0 <= a <= b < t.len() implies t[a] <= t[b] by {
                assert(s[a + 1] <= s[b + 1]);
            }
        }
    } else {
        assert(s.skip(0) =~= s);
        if forall|a: int, b: int| 0 <= a <= b < s.len() ==> s[a] <= s[b] {
            assert forall|i: int| 0 <= i < s.len() implies #[trigger] s[i] >= ws by {
                assert(s[0] <= s[i]);
            }
        }
    }
}

/// The first part that reads as a rate, with the rate.
fn find_rate(parts: &Vec<Vec<char>>, Ghost(tp): Ghost<Seq<Seq<char>>>) -> (r: Option<(usize, usize, u32)>)
    requires
        views(parts@) == tp,
    ensures
        match r {
            Some((ri, c, w)) => first_rate_index(tp, 0) == Some(ri as int) && ri < tp.len()
                && rate_spec(tp[ri as int]) == Some((c as nat, w as nat)),
            None => first_rate_index(tp, 0) is None,
        },
{
    let mut ri: usize = 0;
    while ri < parts.len()
        invariant
            ri <= parts@.len(),
            views(parts@) == tp,
            first_rate_index(tp, 0) == first_rate_index(tp, ri as int),
        decreases parts@.len() - ri,
    {
        assert(views(parts@)[ri as int] == parts@[ri as int]@);
        match parse_rate(&parts[ri]) {
            Some((c, w)) => {
                return Some((ri, c, w));
            },
            None => {},
        }
        ri += 1;
    }
    None
}

/// `rule` is the freshly parsed rule of `spec` at position `index`.
pub closed spec fn rate_rule_fresh(rule: RateAlertRule, spec: Seq<char>, index: nat) -> bool {
    match rate_rule_spec(spec, index) {
        Ok((id, sev, pat, count, window, msg)) => rule.id@ == id && rule.severity@ == sev
            && rule.pattern@ == pat && rule.count == count && rule.window_ledgers == window
            && rule.message@ == msg && rule.window_matches().len() == 0 && rule.last_fired_at() is None,
        Err(_) => false,
    }
}

/// Parses `[severity:]pattern:COUNT/LEDGERS[:message]`.
#[verifier::rlimit(40)]
pub fn parse_rate_alert_rule(spec: &str, index: usize) -> (r: Result<RateAlertRule, String>)
    requires
        index < usize::MAX,
    ensures
        match rate_rule_spec(spec@, index as nat) {
            Ok(_) => r matches Ok(rule) && rate_rule_fresh(rule, spec@, index as nat),
            Err(m) => r matches Err(e) && e@ == m,
        },
{
    let chars = chars_of(spec);
    let raw = split(&chars, ':');
    let ghost tp = trimmed_parts(spec@);
    let mut parts: Vec<Vec<char>> = Vec::new();
    let mut i: usize = 0;
    while i < raw.len()
        invariant
            i <= raw@.len(),
            views(raw@) == split_spec(spec@, ':'),
            tp == trimmed_parts(spec@),
            views(parts@) == tp.take(i as int),
        decreases raw@.len() - i,
    {
        let t = trim_chars(&raw[i]);
        let ghost before = parts@;
        proof {
            lemma_views_push(before, t);
            assert(views(raw@)[i as int] == raw@[i as int]@);
            assert(tp.take(i + 1) =~= tp.take(i as int).push(tp[i as int]));
        }
        parts.push(t);
        i += 1;
    }
    assert(views(parts@) =~= tp);
    let mut usage = to_owned_string("invalid rate alert '");
    push_str(&mut usage, spec);
    push_str(
        &mut usage,
        "'; expected [severity:]pattern:COUNT/LEDGERS[:message] (example: critical:transfer:5/10:transfer burst)",
    );
    assert(usage@ =~= rate_usage(spec@)) by {
        reveal_strlit("invalid rate alert '");
        reveal_strlit("invalid rate alert ");
        reveal_strlit("'");
        reveal_strlit(
            "'; expected [severity:]pattern:COUNT/LEDGERS[:message] (example: critical:transfer:5/10:transfer burst)",
        );
        reveal_strlit(
            "; expected [severity:]pattern:COUNT/LEDGERS[:message] (example: critical:transfer:5/10:transfer burst)",
        );
    }
    let (ri, count, window) = match find_rate(&parts, Ghost(tp)) {
        None => {
            return Err(usage);
        },
        Some(t) => t,
    };
    let head_len = ri;
    let sev_given = head_len == 2 && is_severity(string_of(&parts[0]).as_str());
    if !(head_len == 1 || sev_given) {
        return Err(usage);
    }
    assert(views(parts@)[0] == parts@[0]@);
    let pat: Vec<char> = if head_len == 1 {
        copy_vec(&parts[0])
    } else {
        assert(views(parts@)[1] == parts@[1]@);
        copy_vec(&parts[1])
    };
    if pat.len() == 0 {
        return Err(usage);
    }
    let sev: String = if head_len == 1 {
        to_owned_string("high")
    } else {
        string_of(&parts[0])
    };
    // The message: the remaining parts joined with `:`.
    let mut rest: Vec<String> = Vec::new();
    let mut k: usize = ri + 1;
    while k < parts.len()
        invariant
            ri < k <= parts@.len() || (k == ri + 1 && k > parts@.len()),
            ri < parts@.len(),
            views(parts@) == tp,
            string_views(rest@) == tp.subrange(ri + 1, k as int),
        decreases parts@.len() - k,
    {
        let piece = string_of(&parts[k]);
        proof {
            lemma_string_views_push(rest@, piece);
            assert(views(parts@)[k as int] == parts@[k as int]@);
            assert(tp.subrange(ri + 1, k + 1) =~= tp.subrange(ri + 1, k as int).push(piece@));
        }
        rest.push(piece);
        k += 1;
    }
    assert(tp.subrange(ri + 1, tp.len() as int) =~= tp.skip(ri + 1));
    let joined = join(&rest, ":");
    let trimmed = trim_str(joined.as_str());
    let pattern = string_of(&pat);
    let message = if trimmed.len() == 0 {
        let mut m = to_owned_string("event pattern '");
        push_str(&mut m, pattern.as_str());
        push_str(&mut m, "' exceeded rate threshold");
        assert(m@ =~= "event pattern "@ + quoted(pat@) + " exceeded rate threshold"@) by {
            reveal_strlit("event pattern '");
            reveal_strlit("event pattern ");
            reveal_strlit("'");
            reveal_strlit("' exceeded rate threshold");
            reveal_strlit(" exceeded rate threshold");
        }
        m
    } else {
        string_of(&trimmed)
    };
    let rule = RateAlertRule {
        id: numbered("rate-alert-", index),
        severity: to_lowercase(sev.as_str()),
        pattern,
        count,
        window_ledgers: window,
        message,
        matches: Vec::new(),
        last_fired: None,
    };
    Ok(rule)
}

/// Per-event and rate-based alert rules, evaluated against each event.
#[derive(Debug, Clone)]
pub struct AlertEngine {
    rules: Vec<EventAlertRule>,
    rate_rules: Vec<RateAlertRule>,
}

/// Alerts of the per-event rules that match `e`, in rule order.
pub open spec fn static_alerts(rules: Seq<EventAlertRule>, e: SorobanEvent) -> Seq<(Seq<char>, Seq<char>, Seq<char>)>
    decreases rules.len(),
{
    if rules.len() == 0 {
        Seq::empty()
    } else {
        let rest = static_alerts(rules.drop_last(), e);
        let r = rules.last();
        if pattern_matches(e, r.pattern@) {
            rest.push((r.id@, r.severity@, r.message@))
        } else {
            rest
        }
    }
}

/// Alerts the rate rules raise for `e`, in rule order.
pub open spec fn rate_alerts(rules: Seq<RateAlertRule>, e: SorobanEvent) -> Seq<(Seq<char>, Seq<char>, Seq<char>)>
    decreases rules.len(),
{
    if rules.len() == 0 {
        Seq::empty()
    } else {
        let rest = rate_alerts(rules.drop_last(), e);
        match rules.last().observation(e).2 {
            Some(a) => rest.push(a),
            None => rest,
        }
    }
}

impl AlertEngine {
    /// The per-event rules.
    pub closed spec fn event_rules(&self) -> Seq<EventAlertRule> {
        self.rules@
    }

    /// The rate rules, with their window state.
    pub closed spec fn rate_rule_states(&self) -> Seq<RateAlertRule> {
        self.rate_rules@
    }

    pub fn new(rules: Vec<EventAlertRule>) -> (r: Self)
        ensures
            r.event_rules() == rules@,
            r.rate_rule_states().len() == 0,
    {
        AlertEngine { rules, rate_rules: Vec::new() }
    }

    /// Builds an engine from per-event alert specs only.
    pub fn from_specs(specs: &[String]) -> (r: Result<Self, String>)
        requires
            specs@.len() < usize::MAX,
        ensures
            match r {
                Ok(engine) => engine.rate_rule_states().len() == 0 && engine.event_rules().len()
                    == specs@.len() && forall|i: int|
                    0 <= i < specs@.len() ==> alert_rule_spec(#[trigger] specs@[i]@, i as nat)
                        == Ok::<(Seq<char>, Seq<char>, Seq<char>, Seq<char>), Seq<char>>(
                        alert_rule_view(engine.event_rules()[i]),
                    ),
                Err(m) => exists|i: int|
                    0 <= i < specs@.len() && alert_rule_spec(#[trigger] specs@[i]@, i as nat) == Err::<
                        (Seq<char>, Seq<char>, Seq<char>, Seq<char>),
                        Seq<char>,
                    >(m@),
            },
    {
        let empty: Vec<String> = Vec::new();
        Self::from_all_specs(specs, empty.as_slice())
    }

    /// Builds an engine from per-event alert specs and rate alert specs; the
    /// first malformed spec (per-event specs first) is reported.
    pub fn from_all_specs(specs: &[String], rate_specs: &[String]) -> (r: Result<Self, String>)
        requires
            specs@.len() < usize::MAX,
            rate_specs@.len() < usize::MAX,
        ensures
            match r {
                Ok(engine) => engine.event_rules().len() == specs@.len() && (forall|i: int|
                    0 <= i < specs@.len() ==> alert_rule_spec(#[trigger] specs@[i]@, i as nat)
                        == Ok::<(Seq<char>, Seq<char>, Seq<char>, Seq<char>), Seq<char>>(
                        alert_rule_view(engine.event_rules()[i]),
                    )) && engine.rate_rule_states().len() == rate_specs@.len() && forall|i: int|
                    0 <= i < rate_specs@.len() ==> rate_rule_fresh(
                        #[trigger] engine.rate_rule_states()[i],
                        rate_specs@[i]@,
                        i as nat,
                    ),
                Err(m) => (exists|i: int|
                    0 <= i < specs@.len() && alert_rule_spec(#[trigger] specs@[i]@, i as nat) == Err::<
                        (Seq<char>, Seq<char>, Seq<char>, Seq<char>),
                        Seq<char>,
                    >(m@)) || (exists|i: int|
                    0 <= i < rate_specs@.len() && #[trigger] rate_rule_spec(rate_specs@[i]@, i as nat)
                        == Err::<(Seq<char>, Seq<char>, Seq<char>, nat, nat, Seq<char>), Seq<char>>(m@)),
            },
    {
        let mut rules: Vec<EventAlertRule> = Vec::new();
        let mut i: usize = 0;
        while i < specs.len()
            invariant
                i <= specs@.len(),
                specs@.len() < usize::MAX,
                rules@.len() == i,
                forall|j: int|
                    0 <= j < i ==> alert_rule_spec(#[trigger] specs@[j]@, j as nat) == Ok::<
                        (Seq<char>, Seq<char>, Seq<char>, Seq<char>),
                        Seq<char>,
                    >(alert_rule_view(rules@[j])),
            decreases specs@.len() - i,
        {
            match parse_alert_rule(specs[i].as_str(), i) {
                Ok(rule) => {
                    rules.push(rule);
                },
                Err(m) => {
                    assert(alert_rule_spec(specs@[i as int]@, (i as int) as nat) == Err::<
                        (Seq<char>, Seq<char>, Seq<char>, Seq<char>),
                        Seq<char>,
                    >(m@));
                    return Err(m);
                },
            }
            i += 1;
        }
        let mut rate_rules: Vec<RateAlertRule> = Vec::new();
        let mut k: usize = 0;
        while k < rate_specs.len()
            invariant
                k <= rate_specs@.len(),
                rate_specs@.len() < usize::MAX,
                rate_rules@.len() == k,
                forall|j: int|
                    0 <= j < k ==> rate_rule_fresh(#[trigger] rate_rules@[j], rate_specs@[j]@, j as nat),
            decreases rate_specs@.len() - k,
        {
            match parse_rate_alert_rule(rate_specs[k].as_str(), k) {
                Ok(rule) => {
                    rate_rules.push(rule);
                },
                Err(m) => {
                    let ghost w = k as int;
                    assert(0 <= w < rate_specs@.len() && rate_rule_spec(rate_specs@[w]@, w as nat) == Err::<
                        (Seq<char>, Seq<char>, Seq<char>, nat, nat, Seq<char>),
                        Seq<char>,
                    >(m@));
                    assert(exists|i: int|
                        0 <= i < rate_specs@.len() && #[trigger] rate_rule_spec(rate_specs@[i]@, i as nat)
                            == Err::<(Seq<char>, Seq<char>, Seq<char>, nat, nat, Seq<char>), Seq<char>>(m@));
                    return Err(m);
                },
            }
            k += 1;
        }
        Ok(AlertEngine { rules, rate_rules })
    }

    /// Number of rules of both kinds.
    pub fn rule_count(&self) -> (r: usize)
        ensures
            r == if self.event_rules().len() + self.rate_rule_states().len() <= usize::MAX {
                self.event_rules().len() + self.rate_rule_states().len()
            } else {
                usize::MAX as nat
            },
    {
        match self.rules.len().checked_add(self.rate_rules.len()) {
            Some(n) => n,
            None => usize::MAX,
        }
    }

    /// Evaluates an event against every rule: the per-event alerts first,
    /// then the rate alerts. Rate rules keep sliding-window state, so events
    /// must be fed in ledger order.
    pub fn evaluate(&mut self, event: &SorobanEvent) -> (r: Vec<EventAlert>)
        ensures
            alert_views(r@) == static_alerts(old(self).event_rules(), *event) + rate_alerts(
                old(self).rate_rule_states(),
                *event,
            ),
            final(self).event_rules() == old(self).event_rules(),
            final(self).rate_rule_states().len() == old(self).rate_rule_states().len(),
            forall|i: int|
                0 <= i < old(self).rate_rule_states().len() ==> {
                    let before = #[trigger] old(self).rate_rule_states()[i];
                    let after = final(self).rate_rule_states()[i];
                    &&& after.same_config(&before)
                    &&& after.window_matches() == before.observation(*event).0
                    &&& after.last_fired_at() == before.observation(*event).1
                },
    {
        let ghost rules0 = self.rules@;
        let ghost rate0 = self.rate_rules@;
        let mut alerts: Vec<EventAlert> = Vec::new();
        let mut i: usize = 0;
        while i < self.rules.len()
            invariant
                self.rules@ == rules0,
                self.rate_rules@ == rate0,
                i <= rules0.len(),
                alert_views(alerts@) == static_alerts(rules0.take(i as int), *event),
            decreases rules0.len() - i,
        {
            proof {
                assert(rules0.take(i + 1).drop_last() =~= rules0.take(i as int));
            }
            if event_matches_pattern(event, self.rules[i].pattern.as_str()) {
                let a = EventAlert {
                    rule_id: to_owned_string(self.rules[i].id.as_str()),
                    severity: to_owned_string(self.rules[i].severity.as_str()),
                    message: to_owned_string(self.rules[i].message.as_str()),
                };
                let ghost before = alerts@;
                alerts.push(a);
                assert(alert_views(alerts@) =~= alert_views(before).push(alert_view(a)));
            }
            i += 1;
        }
        assert(rules0.take(i as int) =~= rules0);
        let ghost static_part = alerts@;
        let mut k: usize = 0;
        while k < self.rate_rules.len()
            invariant
                self.rules@ == rules0,
                self.rate_rules@.len() == rate0.len(),
                k <= rate0.len(),
                alert_views(static_part) == static_alerts(rules0, *event),
                alert_views(alerts@) == alert_views(static_part) + rate_alerts(rate0.take(k as int), *event),
                forall|j: int|
                    k <= j < rate0.len() ==> #[trigger] self.rate_rules@[j] == rate0[j],
                forall|j: int|
                    0 <= j < k ==> {
                        let before = #[trigger] rate0[j];
                        let after = self.rate_rules@[j];
                        &&& after.same_config(&before)
                        &&& after.window_matches() == before.observation(*event).0
                        &&& after.last_fired_at() == before.observation(*event).1
                    },
            decreases rate0.len() - k,
        {
            proof {
                assert(rate0.take(k + 1).drop_last() =~= rate0.take(k as int));
            }
            let ghost before_alerts = alerts@;
            let fired = self.rate_rules[k].observe(event);
            match fired {
                Some(a) => {
                    alerts.push(a);
                    assert(alert_views(alerts@) =~= alert_views(before_alerts).push(alert_view(a)));
                },
                None => {},
            }
            k += 1;
        }
        assert(rate0.take(k as int) =~= rate0);
        alerts
    }
}


// ── Persisted events ──────────────────────────────────────────────────────────

/// An event as stored on disk, with the routes and alerts it produced.
#[derive(Debug, Clone)]
pub struct PersistedEvent {
    pub observed_at: String,
    pub network: String,
    pub contract_id: String,
    pub routes: Vec<String>,
    pub alerts: Vec<EventAlert>,
    pub event: SorobanEvent,
}

/// The RFC 3339 text of a whole number of seconds since the Unix epoch, in
/// UTC, or `None` beyond the range chrono represents.
pub uninterp spec fn rfc3339_of_secs(secs: u64) -> Option<Seq<char>>;

/// `chrono::DateTime::<Utc>::from_timestamp(secs, 0)`, formatted with
/// `to_rfc3339`; the text depends on `secs` alone.
#[verifier::external_body]
fn rfc3339_text(secs: u64) -> (r: Option<String>)
    ensures
        match rfc3339_of_secs(secs) {
            Some(t) => r matches Some(s) && s@ == t,
            None => r is None,
        },
{
    match i64::try_from(secs).ok().and_then(|t| chrono::DateTime::<chrono::Utc>::from_timestamp(t, 0)) {
        Some(t) => Some(t.to_rfc3339()),
        None => None,
    }
}

/// The current time as RFC 3339, to the second, from the system clock read as
/// seconds since the epoch (a clock before the epoch reads as the epoch
/// itself, so this never panics; a time chrono cannot represent gives an
/// empty text).
fn now_rfc3339() -> (r: String) {
    let secs = crate::sep10::unix_now();
    match rfc3339_text(secs) {
        Some(t) => t,
        None => String::new(),
    }
}

impl PersistedEvent {
    /// A record of `event`, stamped with the current time.
    pub fn new(
        network: &str,
        contract_id: &str,
        event: SorobanEvent,
        routes: Vec<String>,
        alerts: Vec<EventAlert>,
    ) -> (r: Self)
        ensures
            r.network@ == network@,
            r.contract_id@ == contract_id@,
            r.event == event,
            r.routes == routes,
            r.alerts == alerts,
    {
        PersistedEvent {
            observed_at: now_rfc3339(),
            network: to_owned_string(network),
            contract_id: to_owned_string(contract_id),
            routes,
            alerts,
            event,
        }
    }

    /// `network:contract:event-id`, the key replay deduplicates on.
    pub fn identity(&self) -> (r: String)
        ensures
            r@ == self.network@ + ":"@ + self.contract_id@ + ":"@ + self.event.id@,
    {
        let mut s = to_owned_string(self.network.as_str());
        push_str(&mut s, ":");
        push_str(&mut s, self.contract_id.as_str());
        push_str(&mut s, ":");
        push_str(&mut s, self.event.id.as_str());
        s
    }
}

/// The identity of a record as text.
pub open spec fn identity_of(e: PersistedEvent) -> Seq<char> {
    e.network@ + ":"@ + e.contract_id@ + ":"@ + e.event.id@
}

/// Some record of `s` has identity `id`.
pub open spec fn has_identity(s: Seq<PersistedEvent>, id: Seq<char>) -> bool {
    exists|i: int| 0 <= i < s.len() && identity_of(#[trigger] s[i]) == id
}

/// The records as replay keeps them: the first record of each identity, in
/// file order.
pub open spec fn first_of_each(s: Seq<PersistedEvent>) -> Seq<PersistedEvent>
    decreases s.len(),
{
    if s.len() == 0 {
        Seq::empty()
    } else {
        let prev = first_of_each(s.drop_last());
        if has_identity(prev, identity_of(s.last())) {
            prev
        } else {
            prev.push(s.last())
        }
    }
}

/// Keeps the first record of each identity, in order (the records read back
/// from a store file may repeat an event).
pub fn dedup_records(records: Vec<PersistedEvent>) -> (r: Vec<PersistedEvent>)
    ensures
        r@ == first_of_each(records@),
{
    let ghost all = records@;
    assert(all.subrange(0, all.len() as int) =~= all);
    let mut out: Vec<PersistedEvent> = Vec::new();
    let mut ids: Vec<String> = Vec::new();
    let mut rest = records;
    let mut i: usize = 0;
    let n = rest.len();
    proof {
        assert(all.take(0) =~= Seq::<PersistedEvent>::empty());
    }
    while i < n
        invariant
            n == all.len(),
            i <= n,
            rest@ == all.subrange(i as int, n as int),
            out@ == first_of_each(all.take(i as int)),
            ids@.len() == out@.len(),
            forall|k: int| 0 <= k < ids@.len() ==> (#[trigger] ids@[k])@ == identity_of(out@[k]),
        decreases n - i,
    {
        let e = rest.remove(0);
        proof {
            assert(e == all[i as int]);
            assert(rest@ =~= all.subrange(i + 1, n as int));
            assert(all.take(i + 1).drop_last() =~= all.take(i as int));
        }
        let id = e.identity();
        let mut seen = false;
        let mut j: usize = 0;
        while j < ids.len()
            invariant
                j <= ids@.len(),
                ids@.len() == out@.len(),
                forall|k: int| 0 <= k < ids@.len() ==> (#[trigger] ids@[k])@ == identity_of(out@[k]),
                seen == exists|k: int| 0 <= k < j && identity_of(#[trigger] out@[k]) == id@,
            decreases ids@.len() - j,
        {
            if crate::text::str_eq(ids[j].as_str(), id.as_str()) {
                seen = true;
            }
            proof {
                if ids@[j as int]@ == id@ {
                    assert(identity_of(out@[j as int]) == id@);
                }
            }
            j += 1;
        }
        proof {
            assert(id@ == identity_of(all.take(i + 1).last()));
            if seen {
                let k = choose|k: int| 0 <= k < j && identity_of(#[trigger] out@[k]) == id@;
                assert(has_identity(out@, id@));
            } else {
                assert(!has_identity(out@, id@));
            }
        }
        if !seen {
            ids.push(id);
            out.push(e);
        }
        i += 1;
    }
    assert(all.take(n as int) =~= all);
    out
}

/// Where persisted events of one contract are kept.
#[derive(Debug, Clone)]
pub struct EventStore {
    path: String,
}

/// `e` lies in the inclusive ledger range.
pub open spec fn in_range(e: PersistedEvent, from: Option<u32>, to: Option<u32>) -> bool {
    (match from {
        Some(f) => e.event.ledger >= f,
        None => true,
    }) && (match to {
        Some(t) => e.event.ledger <= t,
        None => true,
    })
}

/// The events in range, in their original order.
pub open spec fn filter_range(s: Seq<PersistedEvent>, from: Option<u32>, to: Option<u32>) -> Seq<PersistedEvent>
    decreases s.len(),
{
    if s.len() == 0 {
        Seq::empty()
    } else {
        let rest = filter_range(s.drop_last(), from, to);
        if in_range(s.last(), from, to) {
            rest.push(s.last())
        } else {
            rest
        }
    }
}

/// Index at which `x` goes into `s` (sorted by ledger) to keep the order
/// stable: after every event with a ledger not above its own.
pub open spec fn ledger_slot(s: Seq<PersistedEvent>, x: PersistedEvent) -> int
    decreases s.len(),
{
    if s.len() == 0 {
        0
    } else if s.last().event.ledger <= x.event.ledger {
        s.len() as int
    } else {
        ledger_slot(s.drop_last(), x)
    }
}

/// Stable sort by ledger (insertion sort).
pub open spec fn sort_by_ledger(s: Seq<PersistedEvent>) -> Seq<PersistedEvent>
    decreases s.len(),
{
    if s.len() == 0 {
        Seq::empty()
    } else {
        let sorted = sort_by_ledger(s.drop_last());
        sorted.insert(ledger_slot(sorted, s.last()), s.last())
    }
}

proof fn lemma_ledger_slot_bound(s: Seq<PersistedEvent>, x: PersistedEvent)
    ensures
        0 <= ledger_slot(s, x) <= s.len(),
    decreases s.len(),
{
    if s.len() > 0 && s.last().event.ledger > x.event.ledger {
        lemma_ledger_slot_bound(s.drop_last(), x);
    }
}

proof fn lemma_sort_len(s: Seq<PersistedEvent>)
    ensures
        sort_by_ledger(s).len() == s.len(),
    decreases s.len(),
{
    if s.len() > 0 {
        lemma_sort_len(s.drop_last());
        lemma_ledger_slot_bound(sort_by_ledger(s.drop_last()), s.last());
    }
}

/// Where `x` goes in `sorted`.
fn find_slot(sorted: &Vec<PersistedEvent>, x: &PersistedEvent) -> (r: usize)
    ensures
        r == ledger_slot(sorted@, *x),
{
    let mut j = sorted.len();
    assert(sorted@.take(j as int) =~= sorted@);
    while j > 0
        invariant
            j <= sorted@.len(),
            ledger_slot(sorted@, *x) == ledger_slot(sorted@.take(j as int), *x),
        decreases j,
    {
        assert(sorted@.take(j as int).drop_last() =~= sorted@.take(j - 1));
        if sorted[j - 1].event.ledger <= x.event.ledger {
            return j;
        }
        j -= 1;
    }
    j
}

/// Ledger order is non-decreasing after sorting.
pub open spec fn ledgers_sorted(s: Seq<PersistedEvent>) -> bool {
    forall|a: int, b: int| 0 <= a <= b < s.len() ==> s[a].event.ledger <= s[b].event.ledger
}

proof fn lemma_slot_keeps_sorted(s: Seq<PersistedEvent>, x: PersistedEvent)
    requires
        ledgers_sorted(s),
    ensures
        ledgers_sorted(s.insert(ledger_slot(s, x), x)),
    decreases s.len(),
{
    lemma_ledger_slot_bound(s, x);
    if s.len() > 0 && s.last().event.ledger > x.event.ledger {
        let t = s.drop_last();
        lemma_slot_keeps_sorted(t, x);
        lemma_ledger_slot_bound(t, x);
        let k = ledger_slot(t, x);
        assert(s.insert(k, x) =~= t.insert(k, x).push(s.last()));
        let u = t.insert(k, x);
        assert forall|a: int, b: int| 0 <= a <= b < u.len() + 1 implies u.push(s.last())[a].event.ledger
            <= u.push(s.last())[b].event.ledger by {
            if b == u.len() {
                if a < u.len() {
                    if a < k {
                        assert(u[a] == t[a]);
                        assert(t[a].event.ledger <= s.last().event.ledger);
                    } else if a == k {
                        assert(u[a] == x);
                    } else {
                        assert(u[a] == t[a - 1]);
                        assert(t[a - 1].event.ledger <= s.last().event.ledger);
                    }
                }
            }
        }
    } else if s.len() > 0 {
        let n = s.len() as int;
        assert(s.insert(n, x) =~= s.push(x));
        assert forall|a: int, b: int| 0 <= a <= b < n + 1 implies s.push(x)[a].event.ledger
            <= s.push(x)[b].event.ledger by {
            if b == n && a < n {
                assert(s[a].event.ledger <= s[n - 1].event.ledger);
            }
        }
    } else {
        assert(s.insert(0, x) =~= seq![x]);
    }
}

/// Sorting puts events in ledger order.
pub proof fn law_sorted_by_ledger(s: Seq<PersistedEvent>)
    ensures
        ledgers_sorted(sort_by_ledger(s)),
        sort_by_ledger(s).len() == s.len(),
    decreases s.len(),
{
    lemma_sort_len(s);
    if s.len() > 0 {
        law_sorted_by_ledger(s.drop_last());
        lemma_slot_keeps_sorted(sort_by_ledger(s.drop_last()), s.last());
    }
}

proof fn lemma_slot_after(s: Seq<PersistedEvent>, x: PersistedEvent)
    ensures
        forall|i: int|
            ledger_slot(s, x) <= i < s.len() ==> (#[trigger] s[i]).event.ledger > x.event.ledger,
    decreases s.len(),
{
    lemma_ledger_slot_bound(s, x);
    if s.len() > 0 && s.last().event.ledger > x.event.ledger {
        let t = s.drop_last();
        lemma_slot_after(t, x);
        lemma_ledger_slot_bound(t, x);
        assert forall|i: int| ledger_slot(s, x) <= i < s.len() implies (#[trigger] s[i]).event.ledger
            > x.event.ledger by {
            if i < t.len() {
                assert(s[i] == t[i]);
            }
        }
    }
}

proof fn lemma_filter_none(b: Seq<PersistedEvent>, p: spec_fn(PersistedEvent) -> bool)
    requires
        forall|i: int| 0 <= i < b.len() ==> !p(#[trigger] b[i]),
    ensures
        b.filter(p) == Seq::<PersistedEvent>::empty(),
    decreases b.len(),
{
    reveal(Seq::filter);
    if b.len() > 0 {
        let t = b.drop_last();
        assert forall|i: int| 0 <= i < t.len() implies !p(#[trigger] t[i]) by {
            assert(t[i] == b[i]);
        }
        lemma_filter_none(t, p);
        assert(!p(b[b.len() - 1]));
    }
}

/// Sorting by ledger is stable: for every ledger, the events at that ledger
/// come out in the order they went in. With the ledger order of the output,
/// this fixes the output to be the stable sort of the input.
pub proof fn law_sort_by_ledger_is_stable(s: Seq<PersistedEvent>, ledger: u32)
    ensures
        sort_by_ledger(s).filter(|e: PersistedEvent| e.event.ledger == ledger) == s.filter(
            |e: PersistedEvent| e.event.ledger == ledger,
        ),
    decreases s.len(),
{
    let p = |e: PersistedEvent| e.event.ledger == ledger;
    reveal(Seq::filter);
    if s.len() > 0 {
        let x = s.last();
        let sorted = sort_by_ledger(s.drop_last());
        law_sort_by_ledger_is_stable(s.drop_last(), ledger);
        lemma_ledger_slot_bound(sorted, x);
        lemma_slot_after(sorted, x);
        let k = ledger_slot(sorted, x);
        let a = sorted.take(k);
        let b = sorted.skip(k);
        assert(sorted.insert(k, x) =~= a + seq![x] + b);
        assert(sorted =~= a + b);
        Seq::filter_distributes_over_add(a + seq![x], b, p);
        Seq::filter_distributes_over_add(a, seq![x], p);
        Seq::filter_distributes_over_add(a, b, p);
        assert(seq![x].drop_last() =~= Seq::<PersistedEvent>::empty());
        assert(seq![x].drop_last().filter(p) == seq![x].drop_last());
        assert(seq![x].last() == x);
        assert(seq![x].filter(p) == if p(x) { seq![x] } else { Seq::<PersistedEvent>::empty() });
        if p(x) {
            assert forall|i: int| 0 <= i < b.len() implies !p(#[trigger] b[i]) by {
                assert(b[i] == sorted[k + i]);
            }
            lemma_filter_none(b, p);
            assert(sorted.insert(k, x).filter(p) =~= sorted.filter(p).push(x));
        } else {
            assert(sorted.insert(k, x).filter(p) =~= a.filter(p) + b.filter(p));
        }
    }
}

impl EventStore {
    pub fn new(path: String) -> (r: Self)
        ensures
            r.path_view() == path@,
    {
        EventStore { path }
    }

    /// The file the events are kept in.
    pub closed spec fn path_view(&self) -> Seq<char> {
        self.path@
    }

    pub fn path(&self) -> (r: &str)
        ensures
            r@ == self.path_view(),
    {
        self.path.as_str()
    }

    /// The replayed events restricted to an inclusive ledger range, in
    /// ledger order (stable), so rate rules see a consistent timeline.
    /// `events` are the store's records as read back from its file.
    pub fn replay_range(
        &self,
        events: Vec<PersistedEvent>,
        from_ledger: Option<u32>,
        to_ledger: Option<u32>,
    ) -> (r: Result<Vec<PersistedEvent>, String>)
        ensures
            match (from_ledger, to_ledger) {
                (Some(f), Some(t)) if f > t => r matches Err(m) && m@ == "invalid replay range: --from-ledger "@
                    + decimal(f as nat) + " is after --to-ledger "@ + decimal(t as nat),
                _ => r matches Ok(v) && v@ == sort_by_ledger(filter_range(events@, from_ledger, to_ledger)),
            },
    {
        match (from_ledger, to_ledger) {
            (Some(f), Some(t)) => {
                if f > t {
                    let mut m = to_owned_string("invalid replay range: --from-ledger ");
                    push_str(&mut m, decimal_string(f as u64).as_str());
                    push_str(&mut m, " is after --to-ledger ");
                    push_str(&mut m, decimal_string(t as u64).as_str());
                    return Err(m);
                }
            },
            _ => {},
        }
        let ghost all = events@;
        let mut kept: Vec<PersistedEvent> = Vec::new();
        let mut source = events;
        let mut rest: Vec<PersistedEvent> = Vec::new();
        while source.len() > 0
            invariant
                all == source@ + rest@.reverse(),
            decreases source@.len(),
        {
            let ghost before = source@;
            let last = source.pop().unwrap();
            proof {
                assert(before =~= source@.push(last));
                assert(rest@.push(last).reverse() =~= seq![last] + rest@.reverse());
            }
            rest.push(last);
        }
        assert(source@ + rest@.reverse() =~= rest@.reverse());
        // `rest` holds the events in reverse order; take them back in order.
        let ghost taken: Seq<PersistedEvent> = Seq::empty();
        while rest.len() > 0
            invariant
                all == taken + rest@.reverse(),
                kept@ == filter_range(taken, from_ledger, to_ledger),
            decreases rest@.len(),
        {
            let ghost before = rest@;
            let e = rest.pop().unwrap();
            proof {
                assert(before.reverse() =~= seq![e] + rest@.reverse());
                assert(taken.push(e).drop_last() =~= taken);
                taken = taken.push(e);
            }
            let keep = (match from_ledger {
                Some(f) => e.event.ledger >= f,
                None => true,
            }) && (match to_ledger {
                Some(t) => e.event.ledger <= t,
                None => true,
            });
            if keep {
                kept.push(e);
            }
        }
        assert(taken =~= all);
        // Stable insertion sort by ledger.
        let ghost filtered = kept@;
        let mut sorted: Vec<PersistedEvent> = Vec::new();
        let mut todo: Vec<PersistedEvent> = Vec::new();
        while kept.len() > 0
            invariant
                filtered == kept@ + todo@.reverse(),
            decreases kept@.len(),
        {
            let ghost before = kept@;
            let x = kept.pop().unwrap();
            proof {
                assert(before =~= kept@.push(x));
                assert(todo@.push(x).reverse() =~= seq![x] + todo@.reverse());
            }
            todo.push(x);
        }
        assert(kept@ + todo@.reverse() =~= todo@.reverse());
        let ghost done: Seq<PersistedEvent> = Seq::empty();
        while todo.len() > 0
            invariant
                filtered == done + todo@.reverse(),
                sorted@ == sort_by_ledger(done),
            decreases todo@.len(),
        {
            let ghost before = todo@;
            let x = todo.pop().unwrap();
            proof {
                assert(before.reverse() =~= seq![x] + todo@.reverse());
                assert(done.push(x).drop_last() =~= done);
                lemma_sort_len(done);
                lemma_ledger_slot_bound(sorted@, x);
                done = done.push(x);
            }
            let slot = find_slot(&sorted, &x);
            sorted.insert(slot, x);
        }
        assert(done =~= filtered);
        Ok(sorted)
    }
}


// ── Analytics ──────────────────────────────────────────────────────────────────

/// `a` sorts before `b` (`String` order: by code point, a prefix first).
pub open spec fn lex_lt(a: Seq<char>, b: Seq<char>) -> bool
    decreases a.len(),
{
    if a.len() == 0 {
        b.len() > 0
    } else if b.len() == 0 {
        false
    } else if a[0] != b[0] {
        (a[0] as u32) < (b[0] as u32)
    } else {
        lex_lt(a.drop_first(), b.drop_first())
    }
}

/// Whether `a` sorts before `b`.
fn lex_less(a: &[char], b: &[char]) -> (r: bool)
    ensures
        r == lex_lt(a@, b@),
{
    let mut i: usize = 0;
    assert(a@.skip(0) =~= a@);
    assert(b@.skip(0) =~= b@);
    while i < a.len() && i < b.len()
        invariant
            i <= a@.len(),
            i <= b@.len(),
            forall|k: int| 0 <= k < i ==> a@[k] == b@[k],
            lex_lt(a@, b@) == lex_lt(a@.skip(i as int), b@.skip(i as int)),
        decreases a@.len() - i,
    {
        assert(a@.skip(i as int).drop_first() =~= a@.skip(i + 1));
        assert(b@.skip(i as int).drop_first() =~= b@.skip(i + 1));
        if a[i] != b[i] {
            return (a[i] as u32) < (b[i] as u32);
        }
        i += 1;
    }
    i < b.len()
}

/// Counts keyed by text, kept in key order.
pub open spec fn count_views(v: Seq<(String, usize)>) -> Seq<(Seq<char>, usize)> {
    v.map_values(|p: (String, usize)| (p.0@, p.1))
}

/// One more occurrence of `key` in counts kept in key order, searching from
/// position `i`: the count goes up by one (saturating), or a new key is
/// inserted in order with count one.
pub open spec fn bump_from(c: Seq<(Seq<char>, usize)>, key: Seq<char>, i: int) -> Seq<(Seq<char>, usize)>
    decreases c.len() - i,
{
    if i < 0 || i >= c.len() {
        c.push((key, 1usize))
    } else if c[i].0 == key {
        c.update(i, (key, if c[i].1 < usize::MAX { (c[i].1 + 1) as usize } else { usize::MAX }))
    } else if lex_lt(key, c[i].0) {
        c.insert(i, (key, 1usize))
    } else {
        bump_from(c, key, i + 1)
    }
}

proof fn lemma_lex_irrefl(a: Seq<char>)
    ensures
        !lex_lt(a, a),
    decreases a.len(),
{
    if a.len() > 0 {
        lemma_lex_irrefl(a.drop_first());
    }
}

proof fn lemma_lex_trans(a: Seq<char>, b: Seq<char>, c: Seq<char>)
    requires
        lex_lt(a, b),
        lex_lt(b, c),
    ensures
        lex_lt(a, c),
    decreases a.len(),
{
    if a.len() > 0 && b.len() > 0 && c.len() > 0 && a[0] == b[0] && b[0] == c[0] {
        lemma_lex_trans(a.drop_first(), b.drop_first(), c.drop_first());
    }
}

proof fn lemma_lex_total(a: Seq<char>, b: Seq<char>)
    requires
        a != b,
    ensures
        lex_lt(a, b) || lex_lt(b, a),
    decreases a.len(),
{
    if a.len() > 0 && b.len() > 0 && a[0] == b[0] {
        if a.drop_first() == b.drop_first() {
            assert(a =~= seq![a[0]] + a.drop_first());
            assert(b =~= seq![b[0]] + b.drop_first());
        }
        lemma_lex_total(a.drop_first(), b.drop_first());
    } else if a.len() == 0 && b.len() == 0 {
        assert(a =~= b);
    } else if a.len() > 0 && b.len() > 0 {
        vstd::utf8::char_u32_cast(a[0], a[0] as u32);
        vstd::utf8::char_u32_cast(b[0], b[0] as u32);
    }
}

/// The keys of a counter list are strictly ascending.
pub open spec fn keys_sorted(c: Seq<(Seq<char>, usize)>) -> bool {
    forall|i: int, j: int| 0 <= i < j < c.len() ==> lex_lt(#[trigger] c[i].0, #[trigger] c[j].0)
}

/// The count a counter list holds for `k`; zero when `k` is not in it.
pub open spec fn count_in(c: Seq<(Seq<char>, usize)>, k: Seq<char>) -> nat {
    if exists|i: int| 0 <= i < c.len() && (#[trigger] c[i]).0 == k {
        c[choose|i: int| 0 <= i < c.len() && (#[trigger] c[i]).0 == k].1 as nat
    } else {
        0
    }
}

/// One more, saturating at `usize::MAX`.
pub open spec fn sat_inc(n: nat) -> nat {
    if n < usize::MAX {
        n + 1
    } else {
        usize::MAX as nat
    }
}

proof fn lemma_count_at(c: Seq<(Seq<char>, usize)>, i: int, k: Seq<char>)
    requires
        keys_sorted(c),
        0 <= i < c.len(),
        c[i].0 == k,
    ensures
        count_in(c, k) == c[i].1,
{
    let j = choose|j: int| 0 <= j < c.len() && (#[trigger] c[j]).0 == k;
    assert(0 <= j < c.len() && c[j].0 == k);
    lemma_lex_irrefl(k);
    if j < i {
        assert(lex_lt(c[j].0, c[i].0));
    } else if i < j {
        assert(lex_lt(c[i].0, c[j].0));
    }
}

proof fn lemma_count_absent(c: Seq<(Seq<char>, usize)>, k: Seq<char>)
    requires
        forall|i: int| 0 <= i < c.len() ==> (#[trigger] c[i]).0 != k,
    ensures
        count_in(c, k) == 0,
{
}

proof fn lemma_bump_from(c: Seq<(Seq<char>, usize)>, key: Seq<char>, i: int)
    requires
        keys_sorted(c),
        0 <= i <= c.len(),
        forall|j: int| 0 <= j < i ==> lex_lt((#[trigger] c[j]).0, key),
    ensures
        keys_sorted(bump_from(c, key, i)),
        forall|k: Seq<char>|
            #[trigger] count_in(bump_from(c, key, i), k) == if k == key {
                sat_inc(count_in(c, k))
            } else {
                count_in(c, k)
            },
    decreases c.len() - i,
{
    lemma_lex_irrefl(key);
    let r = bump_from(c, key, i);
    if i == c.len() {
        assert(r == c.push((key, 1usize)));
        assert forall|k: Seq<char>| #[trigger] count_in(r, k) == if k == key {
            sat_inc(count_in(c, k))
        } else {
            count_in(c, k)
        } by {
            if k == key {
                assert forall|j: int| 0 <= j < c.len() implies (#[trigger] c[j]).0 != k by {
                    assert(lex_lt(c[j].0, key));
                }
                lemma_count_absent(c, k);
                lemma_count_at(r, c.len() as int, k);
            } else if exists|j: int| 0 <= j < c.len() && (#[trigger] c[j]).0 == k {
                let j = choose|j: int| 0 <= j < c.len() && (#[trigger] c[j]).0 == k;
                lemma_count_at(c, j, k);
                assert(r[j] == c[j]);
                lemma_count_at(r, j, k);
            } else {
                assert forall|j: int| 0 <= j < r.len() implies (#[trigger] r[j]).0 != k by {
                    if j < c.len() {
                        assert(r[j] == c[j]);
                    }
                }
                lemma_count_absent(r, k);
            }
        }
    } else if c[i].0 == key {
        let inc: usize = if c[i].1 < usize::MAX { (c[i].1 + 1) as usize } else { usize::MAX };
        assert(r == c.update(i, (key, inc)));
        assert forall|a: int, b: int| 0 <= a < b < r.len() implies lex_lt(#[trigger] r[a].0, #[trigger] r[b].0) by {
            assert(r[a].0 == c[a].0 && r[b].0 == c[b].0);
        }
        assert forall|k: Seq<char>| #[trigger] count_in(r, k) == if k == key {
            sat_inc(count_in(c, k))
        } else {
            count_in(c, k)
        } by {
            if k == key {
                lemma_count_at(c, i, k);
                lemma_count_at(r, i, k);
            } else if exists|j: int| 0 <= j < c.len() && (#[trigger] c[j]).0 == k {
                let j = choose|j: int| 0 <= j < c.len() && (#[trigger] c[j]).0 == k;
                lemma_count_at(c, j, k);
                assert(r[j] == c[j]);
                lemma_count_at(r, j, k);
            } else {
                assert forall|j: int| 0 <= j < r.len() implies (#[trigger] r[j]).0 != k by {
                    assert(r[j].0 == c[j].0);
                }
                lemma_count_absent(r, k);
            }
        }
    } else if lex_lt(key, c[i].0) {
        assert(r == c.insert(i, (key, 1usize)));
        assert forall|j: int| i <= j < c.len() implies lex_lt(key, (#[trigger] c[j]).0) by {
            if j > i {
                lemma_lex_trans(key, c[i].0, c[j].0);
            }
        }
        assert forall|a: int, b: int| 0 <= a < b < r.len() implies lex_lt(#[trigger] r[a].0, #[trigger] r[b].0) by {
            if b < i {
                assert(r[a] == c[a] && r[b] == c[b]);
            } else if b == i {
                assert(r[a] == c[a]);
            } else if a < i {
                assert(r[a] == c[a] && r[b] == c[b - 1]);
                assert(lex_lt(c[a].0, key));
                assert(lex_lt(key, c[b - 1].0));
                lemma_lex_trans(c[a].0, key, c[b - 1].0);
            } else if a == i {
                assert(r[b] == c[b - 1]);
            } else {
                assert(r[a] == c[a - 1] && r[b] == c[b - 1]);
            }
        }
        assert forall|k: Seq<char>| #[trigger] count_in(r, k) == if k == key {
            sat_inc(count_in(c, k))
        } else {
            count_in(c, k)
        } by {
            if k == key {
                assert forall|j: int| 0 <= j < c.len() implies (#[trigger] c[j]).0 != k by {
                    if j < i {
                        assert(lex_lt(c[j].0, key));
                    } else {
                        assert(lex_lt(key, c[j].0));
                    }
                }
                lemma_count_absent(c, k);
                lemma_count_at(r, i, k);
            } else if exists|j: int| 0 <= j < c.len() && (#[trigger] c[j]).0 == k {
                let j = choose|j: int| 0 <= j < c.len() && (#[trigger] c[j]).0 == k;
                lemma_count_at(c, j, k);
                if j < i {
                    assert(r[j] == c[j]);
                    lemma_count_at(r, j, k);
                } else {
                    assert(r[j + 1] == c[j]);
                    lemma_count_at(r, j + 1, k);
                }
            } else {
                assert forall|j: int| 0 <= j < r.len() implies (#[trigger] r[j]).0 != k by {
                    if j < i {
                        assert(r[j] == c[j]);
                    } else if j > i {
                        assert(r[j] == c[j - 1]);
                    }
                }
                lemma_count_absent(r, k);
            }
        }
    } else {
        lemma_lex_total(key, c[i].0);
        lemma_bump_from(c, key, i + 1);
    }
}

/// How often `k` occurs in `keys`.
pub open spec fn occurrences(keys: Seq<Seq<char>>, k: Seq<char>) -> nat
    decreases keys.len(),
{
    if keys.len() == 0 {
        0
    } else {
        occurrences(keys.drop_last(), k) + if keys.last() == k {
            1nat
        } else {
            0nat
        }
    }
}

/// `n`, saturating at `usize::MAX`.
pub open spec fn capped(n: nat) -> nat {
    if n < usize::MAX {
        n
    } else {
        usize::MAX as nat
    }
}

proof fn lemma_count_bound(c: Seq<(Seq<char>, usize)>, k: Seq<char>)
    ensures
        count_in(c, k) <= usize::MAX,
{
}

/// Counts one more `key`.
fn bump(counts: &mut Vec<(String, usize)>, key: &str)
    ensures
        count_views(final(counts)@) == bump_from(count_views(old(counts)@), key@, 0),
{
    let k = chars_of(key);
    let ghost c = count_views(counts@);
    let mut i: usize = 0;
    while i < counts.len()
        invariant
            c == count_views(counts@),
            counts@ == old(counts)@,
            i <= counts@.len(),
            bump_from(c, key@, 0) == bump_from(c, key@, i as int),
            k@ == key@,
        decreases counts@.len() - i,
    {
        let here = chars_of(counts[i].0.as_str());
        assert(c[i as int] == (counts@[i as int].0@, counts@[i as int].1));
        assert(here@ == c[i as int].0);
        if chars_eq(&here, &k) {
            let n = counts[i].1;
            let v = if n < usize::MAX {
                n + 1
            } else {
                usize::MAX
            };
            let name = to_owned_string(key);
            counts.set(i, (name, v));
            assert(count_views(counts@) =~= c.update(i as int, (key@, v)));
            assert(bump_from(c, key@, i as int) == c.update(i as int, (key@, v)));
            return;
        }
        if lex_less(&k, &here) {
            let name = to_owned_string(key);
            counts.insert(i, (name, 1));
            assert(count_views(counts@) =~= c.insert(i as int, (key@, 1usize)));
            assert(c[i as int].0 != key@);
            assert(bump_from(c, key@, i as int) == c.insert(i as int, (key@, 1usize)));
            return;
        }
        i += 1;
    }
    let name = to_owned_string(key);
    counts.push((name, 1));
    assert(count_views(counts@) =~= c.push((key@, 1usize)));
}

/// Running statistics over persisted events.
#[derive(Debug, Clone)]
pub struct EventAnalytics {
    pub total_events: usize,
    pub alert_count: usize,
    pub first_ledger: Option<u32>,
    pub last_ledger: Option<u32>,
    /// Events per type, in key order.
    pub by_type: Vec<(String, usize)>,
    /// Events per route, in key order.
    pub by_route: Vec<(String, usize)>,
    /// Alerts per severity, in key order.
    pub by_alert_severity: Vec<(String, usize)>,
    /// Events per leading topic, in key order.
    pub by_topic: Vec<(String, usize)>,
    /// Dashboard lines of the latest events, oldest first.
    pub recent: Vec<String>,
}

/// How many recent event lines the dashboard keeps.
pub const RECENT_EVENTS: usize = 10;

/// `bump_from` applied for each key, in order.
pub open spec fn bump_all(c: Seq<(Seq<char>, usize)>, keys: Seq<Seq<char>>) -> Seq<(Seq<char>, usize)>
    decreases keys.len(),
{
    if keys.len() == 0 {
        c
    } else {
        bump_from(bump_all(c, keys.drop_last()), keys.last(), 0)
    }
}

proof fn lemma_bump_all(c: Seq<(Seq<char>, usize)>, keys: Seq<Seq<char>>, k: Seq<char>)
    requires
        keys_sorted(c),
    ensures
        keys_sorted(bump_all(c, keys)),
        count_in(bump_all(c, keys), k) == capped(count_in(c, k) + occurrences(keys, k)),
    decreases keys.len(),
{
    lemma_count_bound(c, k);
    if keys.len() > 0 {
        lemma_bump_all(c, keys.drop_last(), k);
        lemma_bump_from(bump_all(c, keys.drop_last()), keys.last(), 0);
    }
}

/// Every count of a counter list is at least one.
pub open spec fn counts_positive(c: Seq<(Seq<char>, usize)>) -> bool {
    forall|i: int| 0 <= i < c.len() ==> (#[trigger] c[i]).1 >= 1
}

proof fn lemma_bump_positive(c: Seq<(Seq<char>, usize)>, key: Seq<char>, i: int)
    requires
        counts_positive(c),
    ensures
        counts_positive(bump_from(c, key, i)),
    decreases c.len() - i,
{
    let r = bump_from(c, key, i);
    if i < 0 || i >= c.len() {
        assert forall|j: int| 0 <= j < r.len() implies (#[trigger] r[j]).1 >= 1 by {
            if j < c.len() {
                assert(r[j] == c[j]);
            }
        }
    } else if c[i].0 == key {
        assert forall|j: int| 0 <= j < r.len() implies (#[trigger] r[j]).1 >= 1 by {
            if j != i {
                assert(r[j] == c[j]);
            }
        }
    } else if lex_lt(key, c[i].0) {
        assert forall|j: int| 0 <= j < r.len() implies (#[trigger] r[j]).1 >= 1 by {
            if j < i {
                assert(r[j] == c[j]);
            } else if j > i {
                assert(r[j] == c[j - 1]);
            }
        }
    } else {
        lemma_bump_positive(c, key, i + 1);
    }
}

proof fn lemma_bump_all_positive(c: Seq<(Seq<char>, usize)>, keys: Seq<Seq<char>>)
    requires
        counts_positive(c),
    ensures
        counts_positive(bump_all(c, keys)),
    decreases keys.len(),
{
    if keys.len() > 0 {
        lemma_bump_all_positive(c, keys.drop_last());
        lemma_bump_positive(bump_all(c, keys.drop_last()), keys.last(), 0);
    }
}

proof fn lemma_count_drop_last(c: Seq<(Seq<char>, usize)>, k: Seq<char>)
    requires
        keys_sorted(c),
        c.len() > 0,
    ensures
        keys_sorted(c.drop_last()),
        count_in(c.drop_last(), k) == if k == c.last().0 {
            0
        } else {
            count_in(c, k)
        },
{
    let d = c.drop_last();
    let n = c.len() - 1;
    assert forall|a: int, b: int| 0 <= a < b < d.len() implies lex_lt(#[trigger] d[a].0, #[trigger] d[b].0) by {
        assert(d[a] == c[a] && d[b] == c[b]);
    }
    lemma_lex_irrefl(k);
    if k == c.last().0 {
        assert forall|j: int| 0 <= j < d.len() implies (#[trigger] d[j]).0 != k by {
            assert(d[j] == c[j]);
            assert(lex_lt(c[j].0, c[n].0));
        }
        lemma_count_absent(d, k);
    } else if exists|j: int| 0 <= j < c.len() && (#[trigger] c[j]).0 == k {
        let j = choose|j: int| 0 <= j < c.len() && (#[trigger] c[j]).0 == k;
        lemma_count_at(c, j, k);
        assert(j < n);
        assert(d[j] == c[j]);
        lemma_count_at(d, j, k);
    } else {
        assert forall|j: int| 0 <= j < d.len() implies (#[trigger] d[j]).0 != k by {
            assert(d[j] == c[j]);
        }
        lemma_count_absent(d, k);
    }
}

/// Two counter lists with ascending keys and positive counts that hold the
/// same count for every key are the same list.
proof fn lemma_counts_determine(c1: Seq<(Seq<char>, usize)>, c2: Seq<(Seq<char>, usize)>)
    requires
        keys_sorted(c1),
        keys_sorted(c2),
        counts_positive(c1),
        counts_positive(c2),
        forall|k: Seq<char>| count_in(c1, k) == count_in(c2, k),
    ensures
        c1 == c2,
    decreases c1.len() + c2.len(),
{
    if c1.len() == 0 && c2.len() == 0 {
        assert(c1 =~= c2);
    } else if c1.len() == 0 {
        lemma_count_at(c2, 0, c2[0].0);
        lemma_count_absent(c1, c2[0].0);
        assert(count_in(c1, c2[0].0) == count_in(c2, c2[0].0));
    } else if c2.len() == 0 {
        lemma_count_at(c1, 0, c1[0].0);
        lemma_count_absent(c2, c1[0].0);
        assert(count_in(c1, c1[0].0) == count_in(c2, c1[0].0));
    } else {
        let n1 = c1.len() - 1;
        let n2 = c2.len() - 1;
        let x1 = c1[n1].0;
        let x2 = c2[n2].0;
        if x1 != x2 {
            lemma_lex_total(x1, x2);
            if lex_lt(x1, x2) {
                assert forall|j: int| 0 <= j < c1.len() implies (#[trigger] c1[j]).0 != x2 by {
                    if j < n1 {
                        lemma_lex_trans(c1[j].0, x1, x2);
                    }
                    lemma_lex_irrefl(x2);
                }
                lemma_count_absent(c1, x2);
                lemma_count_at(c2, n2, x2);
                assert(count_in(c1, x2) == count_in(c2, x2));
            } else {
                assert forall|j: int| 0 <= j < c2.len() implies (#[trigger] c2[j]).0 != x1 by {
                    if j < n2 {
                        lemma_lex_trans(c2[j].0, x2, x1);
                    }
                    lemma_lex_irrefl(x1);
                }
                lemma_count_absent(c2, x1);
                lemma_count_at(c1, n1, x1);
                assert(count_in(c1, x1) == count_in(c2, x1));
            }
        } else {
            lemma_count_at(c1, n1, x1);
            lemma_count_at(c2, n2, x1);
            assert(count_in(c1, x1) == count_in(c2, x1));
            let d1 = c1.drop_last();
            let d2 = c2.drop_last();
            assert forall|k: Seq<char>| count_in(d1, k) == count_in(d2, k) by {
                lemma_count_drop_last(c1, k);
                lemma_count_drop_last(c2, k);
            }
            lemma_count_drop_last(c1, x1);
            lemma_count_drop_last(c2, x1);
            assert forall|i: int| 0 <= i < d1.len() implies (#[trigger] d1[i]).1 >= 1 by {
                assert(d1[i] == c1[i]);
            }
            assert forall|i: int| 0 <= i < d2.len() implies (#[trigger] d2[i]).1 >= 1 by {
                assert(d2[i] == c2[i]);
            }
            lemma_counts_determine(d1, d2);
            assert(c1 =~= d1.push(c1[n1]));
            assert(c2 =~= d2.push(c2[n2]));
        }
    }
}

/// The severities of some alerts.
pub open spec fn alert_severities(v: Seq<EventAlert>) -> Seq<Seq<char>> {
    v.map_values(|a: EventAlert| a.severity@)
}

/// The dashboard line of one event.
pub open spec fn recent_line(e: PersistedEvent) -> Seq<char> {
    "ledger="@ + decimal(e.event.ledger as nat) + " id="@ + e.event.id@ + " type="@
        + e.event.event_type@ + " alerts="@ + decimal(e.alerts@.len()) + " routes="@ + if e.routes@.len()
        == 0 {
        "-"@
    } else {
        join_spec(string_views(e.routes@), ","@)
    }
}

/// The last (at most) ten lines.
pub open spec fn keep_recent(s: Seq<Seq<char>>) -> Seq<Seq<char>> {
    if s.len() > RECENT_EVENTS {
        s.skip(s.len() - RECENT_EVENTS)
    } else {
        s
    }
}

impl EventAnalytics {
    /// The recent event lines, oldest first.
    pub open spec fn recent_lines(&self) -> Seq<Seq<char>> {
        string_views(self.recent@)
    }

    /// No events recorded.
    pub fn new() -> (r: Self)
        ensures
            r.total_events == 0,
            r.alert_count == 0,
            r.first_ledger is None,
            r.last_ledger is None,
            r.by_type@.len() == 0,
            r.by_route@.len() == 0,
            r.by_alert_severity@.len() == 0,
            r.by_topic@.len() == 0,
            r.recent_lines().len() == 0,
    {
        EventAnalytics {
            total_events: 0,
            alert_count: 0,
            first_ledger: None,
            last_ledger: None,
            by_type: Vec::new(),
            by_route: Vec::new(),
            by_alert_severity: Vec::new(),
            by_topic: Vec::new(),
            recent: Vec::new(),
        }
    }

    /// Adds one event to the statistics.
    #[verifier::loop_isolation(false)]
    pub fn record(&mut self, event: &PersistedEvent)
        requires
            old(self).total_events < usize::MAX,
            old(self).alert_count + event.alerts@.len() <= usize::MAX,
        ensures
            final(self).total_events == old(self).total_events + 1,
            final(self).alert_count == old(self).alert_count + event.alerts@.len(),
            final(self).first_ledger == Some(
                match old(self).first_ledger {
                    Some(f) => if f < event.event.ledger {
                        f
                    } else {
                        event.event.ledger
                    },
                    None => event.event.ledger,
                },
            ),
            final(self).last_ledger == Some(
                match old(self).last_ledger {
                    Some(l) => if l > event.event.ledger {
                        l
                    } else {
                        event.event.ledger
                    },
                    None => event.event.ledger,
                },
            ),
            count_views(final(self).by_type@) == bump_from(
                count_views(old(self).by_type@),
                event.event.event_type@,
                0,
            ),
            count_views(final(self).by_route@) == bump_all(
                count_views(old(self).by_route@),
                string_views(event.routes@),
            ),
            count_views(final(self).by_topic@) == if event.event.topic@.len() > 0 {
                bump_from(count_views(old(self).by_topic@), event.event.topic@[0]@, 0)
            } else {
                count_views(old(self).by_topic@)
            },
            count_views(final(self).by_alert_severity@) == bump_all(
                count_views(old(self).by_alert_severity@),
                alert_severities(event.alerts@),
            ),
            final(self).recent_lines() == keep_recent(old(self).recent_lines().push(recent_line(*event))),
    {
        self.total_events = self.total_events + 1;
        self.alert_count = self.alert_count + event.alerts.len();
        let l = event.event.ledger;
        self.first_ledger = Some(
            match self.first_ledger {
                Some(f) => if f < l {
                    f
                } else {
                    l
                },
                None => l,
            },
        );
        self.last_ledger = Some(
            match self.last_ledger {
                Some(x) => if x > l {
                    x
                } else {
                    l
                },
                None => l,
            },
        );
        bump(&mut self.by_type, event.event.event_type.as_str());
        let mut by_route: Vec<(String, usize)> = Vec::new();
        std::mem::swap(&mut by_route, &mut self.by_route);
        let ghost routes = string_views(event.routes@);
        let ghost r0 = count_views(by_route@);
        let mut i: usize = 0;
        while i < event.routes.len()
            invariant
                i <= event.routes@.len(),
                routes == string_views(event.routes@),
                count_views(by_route@) == bump_all(r0, routes.take(i as int)),
            decreases event.routes@.len() - i,
        {
            assert(routes.take(i + 1).drop_last() =~= routes.take(i as int));
            bump(&mut by_route, event.routes[i].as_str());
            i += 1;
        }
        assert(routes.take(i as int) =~= routes);
        std::mem::swap(&mut by_route, &mut self.by_route);
        if event.event.topic.len() > 0 {
            bump(&mut self.by_topic, event.event.topic[0].as_str());
        }
        let mut by_sev: Vec<(String, usize)> = Vec::new();
        std::mem::swap(&mut by_sev, &mut self.by_alert_severity);
        let ghost sevs = alert_severities(event.alerts@);
        let ghost s0 = count_views(by_sev@);
        let mut k: usize = 0;
        while k < event.alerts.len()
            invariant
                k <= event.alerts@.len(),
                sevs == alert_severities(event.alerts@),
                count_views(by_sev@) == bump_all(s0, sevs.take(k as int)),
            decreases event.alerts@.len() - k,
        {
            assert(sevs.take(k + 1).drop_last() =~= sevs.take(k as int));
            bump(&mut by_sev, event.alerts[k].severity.as_str());
            k += 1;
        }
        assert(sevs.take(k as int) =~= sevs);
        std::mem::swap(&mut by_sev, &mut self.by_alert_severity);
        // The recent line.
        let mut line = to_owned_string("ledger=");
        push_str(&mut line, decimal_string(event.event.ledger as u64).as_str());
        push_str(&mut line, " id=");
        push_str(&mut line, event.event.id.as_str());
        push_str(&mut line, " type=");
        push_str(&mut line, event.event.event_type.as_str());
        push_str(&mut line, " alerts=");
        push_str(&mut line, decimal_string(event.alerts.len() as u64).as_str());
        push_str(&mut line, " routes=");
        if event.routes.len() == 0 {
            push_str(&mut line, "-");
        } else {
            push_str(&mut line, join(&event.routes, ",").as_str());
        }
        let ghost before = string_views(self.recent@);
        proof {
            lemma_string_views_push(self.recent@, line);
        }
        self.recent.push(line);
        if self.recent.len() > RECENT_EVENTS {
            let mut recent: Vec<String> = Vec::new();
            std::mem::swap(&mut recent, &mut self.recent);
            let excess = recent.len() - RECENT_EVENTS;
            let ghost full = string_views(recent@);
            let mut d: usize = 0;
            while d < excess
                invariant
                    d <= excess,
                    excess == full.len() - RECENT_EVENTS,
                    recent@.len() == full.len() - d,
                    string_views(recent@) == full.skip(d as int),
                decreases excess - d,
            {
                let ghost cur = recent@;
                recent.remove(0);
                proof {
                    assert(recent@ =~= cur.drop_first());
                    assert(string_views(cur.drop_first()) =~= string_views(cur).drop_first());
                    assert(full.skip(d as int).drop_first() =~= full.skip(d + 1));
                }
                d += 1;
            }
            std::mem::swap(&mut recent, &mut self.recent);
        }
    }

    /// Statistics over a list of events: `record` applied to each in turn,
    /// starting from no events.
    pub fn from_events(events: &[PersistedEvent]) -> (r: Self)
        requires
            events@.len() < usize::MAX,
            alerts_total(events@) <= usize::MAX,
        ensures
            r.total_events == events@.len(),
            r.alert_count == alerts_total(events@),
            analytics_view(r) == recorded_all(events@),
    {
        let mut a = EventAnalytics::new();
        proof {
            assert(count_views(a.by_type@) =~= Seq::<(Seq<char>, usize)>::empty());
            assert(count_views(a.by_route@) =~= Seq::<(Seq<char>, usize)>::empty());
            assert(count_views(a.by_alert_severity@) =~= Seq::<(Seq<char>, usize)>::empty());
            assert(count_views(a.by_topic@) =~= Seq::<(Seq<char>, usize)>::empty());
            assert(a.recent_lines() =~= Seq::<Seq<char>>::empty());
            assert(events@.take(0) =~= Seq::<PersistedEvent>::empty());
        }
        let mut i: usize = 0;
        while i < events.len()
            invariant
                i <= events@.len(),
                events@.len() < usize::MAX,
                alerts_total(events@) <= usize::MAX,
                a.total_events == i,
                a.alert_count == alerts_total(events@.take(i as int)),
                analytics_view(a) == recorded_all(events@.take(i as int)),
            decreases events@.len() - i,
        {
            proof {
                lemma_alerts_total_prefix(events@, i + 1);
                assert(events@.take(i + 1).drop_last() =~= events@.take(i as int));
                assert(events@.take(i + 1).last() == events@[i as int]);
            }
            let ghost before = analytics_view(a);
            a.record(&events[i]);
            proof {
                assert(analytics_view(a) == recorded(before, events@[i as int]));
            }
            i += 1;
        }
        assert(events@.take(i as int) =~= events@);
        a
    }
}

/// The alerts of all events.
pub open spec fn alerts_total(events: Seq<PersistedEvent>) -> nat
    decreases events.len(),
{
    if events.len() == 0 {
        0
    } else {
        alerts_total(events.drop_last()) + events.last().alerts@.len()
    }
}

proof fn lemma_alerts_total_prefix(events: Seq<PersistedEvent>, i: int)
    requires
        0 <= i <= events.len(),
    ensures
        alerts_total(events.take(i)) <= alerts_total(events),
    decreases events.len() - i,
{
    if i < events.len() {
        lemma_alerts_total_prefix(events, i + 1);
        assert(events.take(i + 1).drop_last() =~= events.take(i));
    } else {
        assert(events.take(i) =~= events);
    }
}

/// Event statistics as plain values.
pub struct AnalyticsView {
    pub total_events: nat,
    pub alert_count: nat,
    pub first_ledger: Option<u32>,
    pub last_ledger: Option<u32>,
    pub by_type: Seq<(Seq<char>, usize)>,
    pub by_route: Seq<(Seq<char>, usize)>,
    pub by_alert_severity: Seq<(Seq<char>, usize)>,
    pub by_topic: Seq<(Seq<char>, usize)>,
    pub recent: Seq<Seq<char>>,
}

/// The statistics as plain values.
pub open spec fn analytics_view(a: EventAnalytics) -> AnalyticsView {
    AnalyticsView {
        total_events: a.total_events as nat,
        alert_count: a.alert_count as nat,
        first_ledger: a.first_ledger,
        last_ledger: a.last_ledger,
        by_type: count_views(a.by_type@),
        by_route: count_views(a.by_route@),
        by_alert_severity: count_views(a.by_alert_severity@),
        by_topic: count_views(a.by_topic@),
        recent: a.recent_lines(),
    }
}

/// The statistics after recording `e` (what `record` does).
pub open spec fn recorded(v: AnalyticsView, e: PersistedEvent) -> AnalyticsView {
    AnalyticsView {
        total_events: v.total_events + 1,
        alert_count: v.alert_count + e.alerts@.len(),
        first_ledger: Some(
            match v.first_ledger {
                Some(f) => if f < e.event.ledger {
                    f
                } else {
                    e.event.ledger
                },
                None => e.event.ledger,
            },
        ),
        last_ledger: Some(
            match v.last_ledger {
                Some(l) => if l > e.event.ledger {
                    l
                } else {
                    e.event.ledger
                },
                None => e.event.ledger,
            },
        ),
        by_type: bump_from(v.by_type, e.event.event_type@, 0),
        by_route: bump_all(v.by_route, string_views(e.routes@)),
        by_alert_severity: bump_all(v.by_alert_severity, alert_severities(e.alerts@)),
        by_topic: if e.event.topic@.len() > 0 {
            bump_from(v.by_topic, e.event.topic@[0]@, 0)
        } else {
            v.by_topic
        },
        recent: keep_recent(v.recent.push(recent_line(e))),
    }
}

/// The statistics of `events`, recorded in order from none.
pub open spec fn recorded_all(events: Seq<PersistedEvent>) -> AnalyticsView
    decreases events.len(),
{
    if events.len() == 0 {
        AnalyticsView {
            total_events: 0,
            alert_count: 0,
            first_ledger: None,
            last_ledger: None,
            by_type: Seq::empty(),
            by_route: Seq::empty(),
            by_alert_severity: Seq::empty(),
            by_topic: Seq::empty(),
            recent: Seq::empty(),
        }
    } else {
        recorded(recorded_all(events.drop_last()), events.last())
    }
}


/// The ledger range of the statistics is that of the events, whatever their
/// order: none for no events; otherwise the first ledger is the lowest
/// ledger of an event and the last the highest.
pub proof fn law_ledger_range_is_events_range(events: Seq<PersistedEvent>)
    ensures
        (recorded_all(events).first_ledger is None) == (events.len() == 0),
        (recorded_all(events).last_ledger is None) == (events.len() == 0),
        recorded_all(events).first_ledger matches Some(f) ==> (exists|i: int|
            0 <= i < events.len() && (#[trigger] events[i]).event.ledger == f) && forall|i: int|
            0 <= i < events.len() ==> f <= (#[trigger] events[i]).event.ledger,
        recorded_all(events).last_ledger matches Some(l) ==> (exists|i: int|
            0 <= i < events.len() && (#[trigger] events[i]).event.ledger == l) && forall|i: int|
            0 <= i < events.len() ==> (#[trigger] events[i]).event.ledger <= l,
        recorded_all(events).total_events == events.len(),
        recorded_all(events).alert_count == alerts_total(events),
    decreases events.len(),
{
    if events.len() > 0 {
        let t = events.drop_last();
        law_ledger_range_is_events_range(t);
        let n = events.len() - 1;
        assert forall|i: int| 0 <= i < t.len() implies #[trigger] events[i] == t[i] by {}
        let v = recorded_all(t);
        let x = events.last();
        assert(events[n] == x);
        match v.first_ledger {
            Some(f) => {
                let i = choose|i: int| 0 <= i < t.len() && (#[trigger] t[i]).event.ledger == f;
                assert(events[i] == t[i]);
            },
            None => {},
        }
        match v.last_ledger {
            Some(l) => {
                let i = choose|i: int| 0 <= i < t.len() && (#[trigger] t[i]).event.ledger == l;
                assert(events[i] == t[i]);
            },
            None => {},
        }
    }
}

/// How many of `events` have type `k`.
pub open spec fn type_count(events: Seq<PersistedEvent>, k: Seq<char>) -> nat
    decreases events.len(),
{
    if events.len() == 0 {
        0
    } else {
        type_count(events.drop_last(), k) + if events.last().event.event_type@ == k {
            1nat
        } else {
            0nat
        }
    }
}

/// How many of `events` have `k` as their first topic.
pub open spec fn topic_count(events: Seq<PersistedEvent>, k: Seq<char>) -> nat
    decreases events.len(),
{
    if events.len() == 0 {
        0
    } else {
        topic_count(events.drop_last(), k) + if events.last().event.topic@.len() > 0
            && events.last().event.topic@[0]@ == k {
            1nat
        } else {
            0nat
        }
    }
}

/// How often `k` is among the routes of `events`.
pub open spec fn route_count(events: Seq<PersistedEvent>, k: Seq<char>) -> nat
    decreases events.len(),
{
    if events.len() == 0 {
        0
    } else {
        route_count(events.drop_last(), k) + occurrences(string_views(events.last().routes@), k)
    }
}

/// How many alerts of `events` have severity `k`.
pub open spec fn severity_count(events: Seq<PersistedEvent>, k: Seq<char>) -> nat
    decreases events.len(),
{
    if events.len() == 0 {
        0
    } else {
        severity_count(events.drop_last(), k) + occurrences(alert_severities(events.last().alerts@), k)
    }
}

/// Each count of the statistics is how often its key occurs among the
/// events (their types, first topics, routes and alert severities), capped
/// at `usize::MAX`: it does not depend on the order of the events. The keys
/// of each count list are in ascending order, so the lists themselves do
/// not either.
pub proof fn law_counts_are_occurrences(events: Seq<PersistedEvent>, k: Seq<char>)
    ensures
        keys_sorted(recorded_all(events).by_type),
        keys_sorted(recorded_all(events).by_topic),
        keys_sorted(recorded_all(events).by_route),
        keys_sorted(recorded_all(events).by_alert_severity),
        count_in(recorded_all(events).by_type, k) == capped(type_count(events, k)),
        count_in(recorded_all(events).by_topic, k) == capped(topic_count(events, k)),
        count_in(recorded_all(events).by_route, k) == capped(route_count(events, k)),
        count_in(recorded_all(events).by_alert_severity, k) == capped(severity_count(events, k)),
    decreases events.len(),
{
    if events.len() > 0 {
        let t = events.drop_last();
        let e = events.last();
        let v = recorded_all(t);
        law_counts_are_occurrences(t, k);
        lemma_bump_from(v.by_type, e.event.event_type@, 0);
        if e.event.topic@.len() > 0 {
            lemma_bump_from(v.by_topic, e.event.topic@[0]@, 0);
        }
        lemma_bump_all(v.by_route, string_views(e.routes@), k);
        lemma_bump_all(v.by_alert_severity, alert_severities(e.alerts@), k);
    }
}

/// The sum of `w` over the events.
pub open spec fn weight_sum(s: Seq<PersistedEvent>, w: spec_fn(PersistedEvent) -> nat) -> nat
    decreases s.len(),
{
    if s.len() == 0 {
        0
    } else {
        weight_sum(s.drop_last(), w) + w(s.last())
    }
}

proof fn lemma_weight_sum_remove(s: Seq<PersistedEvent>, w: spec_fn(PersistedEvent) -> nat, j: int)
    requires
        0 <= j < s.len(),
    ensures
        weight_sum(s, w) == weight_sum(s.remove(j), w) + w(s[j]),
    decreases s.len(),
{
    if j == s.len() - 1 {
        assert(s.remove(j) =~= s.drop_last());
    } else {
        lemma_weight_sum_remove(s.drop_last(), w, j);
        assert(s.remove(j).drop_last() =~= s.drop_last().remove(j));
        assert(s.remove(j).last() == s.last());
    }
}

/// Sums over the same events in any order are equal.
proof fn lemma_weight_sum_perm(a: Seq<PersistedEvent>, b: Seq<PersistedEvent>, w: spec_fn(PersistedEvent) -> nat)
    requires
        a.to_multiset() == b.to_multiset(),
    ensures
        weight_sum(a, w) == weight_sum(b, w),
    decreases a.len(),
{
    broadcast use vstd::seq_lib::group_to_multiset_ensures;

    vstd::seq_lib::to_multiset_len(a);
    vstd::seq_lib::to_multiset_len(b);
    if a.len() == 0 {
        assert(b.len() == 0);
    } else {
        let x = a.last();
        assert(a =~= a.drop_last().push(x));
        assert(a.to_multiset().count(x) > 0);
        assert(b.contains(x));
        let j = choose|j: int| 0 <= j < b.len() && b[j] == x;
        lemma_weight_sum_remove(b, w, j);
        assert(b.remove(j).to_multiset() =~= a.drop_last().to_multiset());
        lemma_weight_sum_perm(a.drop_last(), b.remove(j), w);
    }
}

/// Weight: one per event.
pub open spec fn one_weight() -> spec_fn(PersistedEvent) -> nat {
    |e: PersistedEvent| 1nat
}

/// Weight: the alerts of an event.
pub open spec fn alert_weight() -> spec_fn(PersistedEvent) -> nat {
    |e: PersistedEvent| e.alerts@.len()
}

/// Weight: one for an event of type `k`.
pub open spec fn type_weight(k: Seq<char>) -> spec_fn(PersistedEvent) -> nat {
    |e: PersistedEvent|
        if e.event.event_type@ == k {
            1nat
        } else {
            0nat
        }
}

/// Weight: one for an event whose first topic is `k`.
pub open spec fn topic_weight(k: Seq<char>) -> spec_fn(PersistedEvent) -> nat {
    |e: PersistedEvent|
        if e.event.topic@.len() > 0 && e.event.topic@[0]@ == k {
            1nat
        } else {
            0nat
        }
}

/// Weight: how often `k` is among an event's routes.
pub open spec fn route_weight(k: Seq<char>) -> spec_fn(PersistedEvent) -> nat {
    |e: PersistedEvent| occurrences(string_views(e.routes@), k)
}

/// Weight: how many of an event's alerts have severity `k`.
pub open spec fn severity_weight_of(k: Seq<char>) -> spec_fn(PersistedEvent) -> nat {
    |e: PersistedEvent| occurrences(alert_severities(e.alerts@), k)
}

proof fn lemma_counts_as_sums(s: Seq<PersistedEvent>, k: Seq<char>)
    ensures
        s.len() == weight_sum(s, one_weight()),
        alerts_total(s) == weight_sum(s, alert_weight()),
        type_count(s, k) == weight_sum(s, type_weight(k)),
        topic_count(s, k) == weight_sum(s, topic_weight(k)),
        route_count(s, k) == weight_sum(s, route_weight(k)),
        severity_count(s, k) == weight_sum(s, severity_weight_of(k)),
    decreases s.len(),
{
    if s.len() > 0 {
        lemma_counts_as_sums(s.drop_last(), k);
    }
}

proof fn lemma_recorded_positive(events: Seq<PersistedEvent>)
    ensures
        counts_positive(recorded_all(events).by_type),
        counts_positive(recorded_all(events).by_topic),
        counts_positive(recorded_all(events).by_route),
        counts_positive(recorded_all(events).by_alert_severity),
    decreases events.len(),
{
    if events.len() > 0 {
        let v = recorded_all(events.drop_last());
        let e = events.last();
        lemma_recorded_positive(events.drop_last());
        lemma_bump_positive(v.by_type, e.event.event_type@, 0);
        if e.event.topic@.len() > 0 {
            lemma_bump_positive(v.by_topic, e.event.topic@[0]@, 0);
        }
        lemma_bump_all_positive(v.by_route, string_views(e.routes@));
        lemma_bump_all_positive(v.by_alert_severity, alert_severities(e.alerts@));
    }
}

/// The statistics do not depend on the order of the events: the same events
/// in any order give the same totals, ledger range and per-key counts (only
/// the recent lines follow the order).
pub proof fn law_analytics_ignore_event_order(a: Seq<PersistedEvent>, b: Seq<PersistedEvent>)
    requires
        a.to_multiset() == b.to_multiset(),
    ensures
        recorded_all(a).total_events == recorded_all(b).total_events,
        recorded_all(a).alert_count == recorded_all(b).alert_count,
        recorded_all(a).first_ledger == recorded_all(b).first_ledger,
        recorded_all(a).last_ledger == recorded_all(b).last_ledger,
        recorded_all(a).by_type == recorded_all(b).by_type,
        recorded_all(a).by_topic == recorded_all(b).by_topic,
        recorded_all(a).by_route == recorded_all(b).by_route,
        recorded_all(a).by_alert_severity == recorded_all(b).by_alert_severity,
{
    broadcast use vstd::seq_lib::group_to_multiset_ensures;

    let ra = recorded_all(a);
    let rb = recorded_all(b);
    law_ledger_range_is_events_range(a);
    law_ledger_range_is_events_range(b);
    lemma_recorded_positive(a);
    lemma_recorded_positive(b);
    vstd::seq_lib::to_multiset_len(a);
    vstd::seq_lib::to_multiset_len(b);
    assert(a.len() == b.len());
    lemma_counts_as_sums(a, Seq::empty());
    lemma_counts_as_sums(b, Seq::empty());
    lemma_weight_sum_perm(a, b, alert_weight());
    assert forall|k: Seq<char>| count_in(ra.by_type, k) == count_in(rb.by_type, k) by {
        law_counts_are_occurrences(a, k);
        law_counts_are_occurrences(b, k);
        lemma_counts_as_sums(a, k);
        lemma_counts_as_sums(b, k);
        lemma_weight_sum_perm(a, b, type_weight(k));
    }
    assert forall|k: Seq<char>| count_in(ra.by_topic, k) == count_in(rb.by_topic, k) by {
        law_counts_are_occurrences(a, k);
        law_counts_are_occurrences(b, k);
        lemma_counts_as_sums(a, k);
        lemma_counts_as_sums(b, k);
        lemma_weight_sum_perm(a, b, topic_weight(k));
    }
    assert forall|k: Seq<char>| count_in(ra.by_route, k) == count_in(rb.by_route, k) by {
        law_counts_are_occurrences(a, k);
        law_counts_are_occurrences(b, k);
        lemma_counts_as_sums(a, k);
        lemma_counts_as_sums(b, k);
        lemma_weight_sum_perm(a, b, route_weight(k));
    }
    assert forall|k: Seq<char>| count_in(ra.by_alert_severity, k) == count_in(rb.by_alert_severity, k) by {
        law_counts_are_occurrences(a, k);
        law_counts_are_occurrences(b, k);
        lemma_counts_as_sums(a, k);
        lemma_counts_as_sums(b, k);
        lemma_weight_sum_perm(a, b, severity_weight_of(k));
    }
    law_counts_are_occurrences(a, Seq::empty());
    law_counts_are_occurrences(b, Seq::empty());
    lemma_counts_determine(ra.by_type, rb.by_type);
    lemma_counts_determine(ra.by_topic, rb.by_topic);
    lemma_counts_determine(ra.by_route, rb.by_route);
    lemma_counts_determine(ra.by_alert_severity, rb.by_alert_severity);
    match (ra.first_ledger, rb.first_ledger) {
        (Some(fa), Some(fb)) => {
            let i = choose|i: int| 0 <= i < a.len() && (#[trigger] a[i]).event.ledger == fa;
            let j = choose|j: int| 0 <= j < b.len() && (#[trigger] b[j]).event.ledger == fb;
            assert(a.contains(a[i]));
            assert(b.to_multiset().count(a[i]) > 0);
            let i2 = choose|i2: int| 0 <= i2 < b.len() && b[i2] == a[i];
            assert(b.contains(b[j]));
            assert(a.to_multiset().count(b[j]) > 0);
            let j2 = choose|j2: int| 0 <= j2 < a.len() && a[j2] == b[j];
            assert(fb <= b[i2].event.ledger);
            assert(fa <= a[j2].event.ledger);
        },
        _ => {},
    }
    match (ra.last_ledger, rb.last_ledger) {
        (Some(la), Some(lb)) => {
            let i = choose|i: int| 0 <= i < a.len() && (#[trigger] a[i]).event.ledger == la;
            let j = choose|j: int| 0 <= j < b.len() && (#[trigger] b[j]).event.ledger == lb;
            assert(a.contains(a[i]));
            assert(b.to_multiset().count(a[i]) > 0);
            let i2 = choose|i2: int| 0 <= i2 < b.len() && b[i2] == a[i];
            assert(b.contains(b[j]));
            assert(a.to_multiset().count(b[j]) > 0);
            let j2 = choose|j2: int| 0 <= j2 < a.len() && a[j2] == b[j];
            assert(b[i2].event.ledger <= lb);
            assert(a[j2].event.ledger <= la);
        },
        _ => {},
    }
}

// ── Dashboard ─────────────────────────────────────────────────────────────────

/// `a` comes before `b`: by count, highest first, then by key when
/// `by_count`; by key alone otherwise.
pub open spec fn precedes(a: (Seq<char>, usize), b: (Seq<char>, usize), by_count: bool) -> bool {
    if by_count {
        a.1 > b.1 || (a.1 == b.1 && lex_lt(a.0, b.0))
    } else {
        lex_lt(a.0, b.0)
    }
}

/// Where `x` goes in `s` for a stable insertion sort.
pub open spec fn sort_slot(s: Seq<(Seq<char>, usize)>, x: (Seq<char>, usize), by_count: bool) -> int
    decreases s.len(),
{
    if s.len() == 0 {
        0
    } else if !precedes(x, s.last(), by_count) {
        s.len() as int
    } else {
        sort_slot(s.drop_last(), x, by_count)
    }
}

/// Stable sort of counts (by count then key, or by key).
pub open spec fn sort_counts(s: Seq<(Seq<char>, usize)>, by_count: bool) -> Seq<(Seq<char>, usize)>
    decreases s.len(),
{
    if s.len() == 0 {
        Seq::empty()
    } else {
        let t = sort_counts(s.drop_last(), by_count);
        t.insert(sort_slot(t, s.last(), by_count), s.last())
    }
}

proof fn lemma_sort_slot_bound(s: Seq<(Seq<char>, usize)>, x: (Seq<char>, usize), by_count: bool)
    ensures
        0 <= sort_slot(s, x, by_count) <= s.len(),
    decreases s.len(),
{
    if s.len() > 0 && precedes(x, s.last(), by_count) {
        lemma_sort_slot_bound(s.drop_last(), x, by_count);
    }
}

proof fn lemma_sort_counts_len(s: Seq<(Seq<char>, usize)>, by_count: bool)
    ensures
        sort_counts(s, by_count).len() == s.len(),
    decreases s.len(),
{
    if s.len() > 0 {
        lemma_sort_counts_len(s.drop_last(), by_count);
        lemma_sort_slot_bound(sort_counts(s.drop_last(), by_count), s.last(), by_count);
    }
}

/// Whether `a` comes before `b`.
fn precedes_exec(a: &(String, usize), b: &(String, usize), by_count: bool) -> (r: bool)
    ensures
        r == precedes((a.0@, a.1), (b.0@, b.1), by_count),
{
    let ka = chars_of(a.0.as_str());
    let kb = chars_of(b.0.as_str());
    if by_count {
        a.1 > b.1 || (a.1 == b.1 && lex_less(&ka, &kb))
    } else {
        lex_less(&ka, &kb)
    }
}

/// Where `x` goes in `out`.
fn slot_exec(out: &Vec<(String, usize)>, x: &(String, usize), by_count: bool) -> (r: usize)
    ensures
        r == sort_slot(count_views(out@), (x.0@, x.1), by_count),
{
    let ghost t = count_views(out@);
    let mut j = out.len();
    assert(t.take(j as int) =~= t);
    while j > 0
        invariant
            j <= out@.len(),
            t == count_views(out@),
            sort_slot(t, (x.0@, x.1), by_count) == sort_slot(t.take(j as int), (x.0@, x.1), by_count),
        decreases j,
    {
        assert(t.take(j as int).drop_last() =~= t.take(j - 1));
        assert(t.take(j as int).last() == (out@[j - 1].0@, out@[j - 1].1));
        if !precedes_exec(x, &out[j - 1], by_count) {
            return j;
        }
        j -= 1;
    }
    j
}

/// A copy of the counts, sorted.
fn sorted_counts(v: &Vec<(String, usize)>, by_count: bool) -> (r: Vec<(String, usize)>)
    ensures
        count_views(r@) == sort_counts(count_views(v@), by_count),
{
    let ghost cv = count_views(v@);
    let mut out: Vec<(String, usize)> = Vec::new();
    let mut i: usize = 0;
    while i < v.len()
        invariant
            i <= v@.len(),
            cv == count_views(v@),
            count_views(out@) == sort_counts(cv.take(i as int), by_count),
        decreases v@.len() - i,
    {
        let x = (to_owned_string(v[i].0.as_str()), v[i].1);
        assert(cv.take(i + 1).drop_last() =~= cv.take(i as int));
        assert(cv.take(i + 1).last() == (x.0@, x.1));
        proof {
            lemma_sort_counts_len(cv.take(i as int), by_count);
        }
        let ghost t = count_views(out@);
        let j = slot_exec(&out, &x, by_count);
        proof {
            lemma_sort_slot_bound(t, (x.0@, x.1), by_count);
        }
        out.insert(j, x);
        assert(count_views(out@) =~= t.insert(j as int, (x.0@, x.1)));
        i += 1;
    }
    assert(cv.take(i as int) =~= cv);
    out
}

/// The `limit` most frequent leading topics, highest count first (ties by
/// name).
pub open spec fn top_topics_spec(by_topic: Seq<(Seq<char>, usize)>, limit: nat) -> Seq<(Seq<char>, usize)> {
    let sorted = sort_counts(by_topic, true);
    if limit < sorted.len() {
        sorted.take(limit as int)
    } else {
        sorted
    }
}

/// The exact ratio `n / d` to two decimals, rounded half to even. This is
/// integer arithmetic on the exact ratio, not formatting of a binary float:
/// where the exact ratio ends in exactly half a hundredth, `{:.2}` of the
/// nearest `f64` can round the other way (203 / 200 gives `1.02` here and
/// `1.01` from the float); elsewhere the two agree.
pub open spec fn two_decimals(n: nat, d: nat) -> Seq<char>
    recommends
        d > 0,
{
    let q = (n * 100) / d;
    let r = (n * 100) % d;
    let h = if 2 * r > d || (2 * r == d && q % 2 == 1) {
        q + 1
    } else {
        q
    };
    decimal(h / 100) + "."@ + (if h % 100 < 10 {
        "0"@
    } else {
        Seq::empty()
    }) + decimal(h % 100)
}

/// `n / d` with two decimals.
fn format_two_decimals(n: u64, d: u64) -> (r: String)
    requires
        d > 0,
    ensures
        r@ == two_decimals(n as nat, d as nat),
{
    let num = n as u128 * 100;
    let q = num / d as u128;
    let rem = num % d as u128;
    let h = if 2 * rem > d as u128 || (2 * rem == d as u128 && q % 2 == 1) {
        q + 1
    } else {
        q
    };
    assert(h / 100 <= u64::MAX) by (nonlinear_arith)
        requires
            h <= q + 1,
            q == (n * 100) / (d as int),
            d >= 1,
            n <= u64::MAX,
    ;
    let mut s = decimal_string((h / 100) as u64);
    push_str(&mut s, ".");
    if h % 100 < 10 {
        push_str(&mut s, "0");
    }
    push_str(&mut s, decimal_string((h % 100) as u64).as_str());
    s
}

/// The lines of one counts block.
pub open spec fn count_lines(items: Seq<(Seq<char>, usize)>) -> Seq<char>
    decreases items.len(),
{
    if items.len() == 0 {
        Seq::empty()
    } else {
        count_lines(items.drop_last()) + "  - "@ + items.last().0 + ": "@ + decimal(items.last().1 as nat)
            + "\n"@
    }
}

/// A titled block of counts, sorted by key.
pub open spec fn counts_block(title: Seq<char>, counts: Seq<(Seq<char>, usize)>) -> Seq<char> {
    title + ":\n"@ + if counts.len() == 0 {
        "  - none\n"@
    } else {
        count_lines(sort_counts(counts, false))
    }
}

/// The lines of the recent events.
pub open spec fn recent_block(lines: Seq<Seq<char>>) -> Seq<char>
    decreases lines.len(),
{
    if lines.len() == 0 {
        Seq::empty()
    } else {
        recent_block(lines.drop_last()) + "  - "@ + lines.last() + "\n"@
    }
}

/// The dashboard header: totals, ledger range and event rate.
pub open spec fn dashboard_header(a: EventAnalytics) -> Seq<char> {
    let range = match (a.first_ledger, a.last_ledger) {
        (Some(f), Some(l)) => decimal(f as nat) + ".."@ + decimal(l as nat),
        _ => "n/a"@,
    };
    let rate = match (a.first_ledger, a.last_ledger) {
        (Some(f), Some(l)) => if f <= l {
            "Event rate   : "@ + two_decimals(a.total_events as nat, (l - f + 1) as nat)
                + " events/ledger\n"@
        } else {
            Seq::empty()
        },
        _ => Seq::empty(),
    };
    "\nEvent Analytics Dashboard\n"@ + "-------------------------\n"@ + "Total events : "@ + decimal(
        a.total_events as nat,
    ) + "\n"@ + "Alerts fired : "@ + decimal(a.alert_count as nat) + "\n"@ + "Ledger range : "@ + range
        + "\n"@ + rate
}

/// The dashboard's top topics.
pub open spec fn dashboard_topics(a: EventAnalytics) -> Seq<char> {
    let top = top_topics_spec(count_views(a.by_topic@), 5);
    "Top topics:\n"@ + if top.len() == 0 {
        "  - none\n"@
    } else {
        count_lines(top)
    }
}

/// The dashboard's recent events.
pub open spec fn dashboard_recent(a: EventAnalytics) -> Seq<char> {
    "Recent events:\n"@ + if a.recent_lines().len() == 0 {
        "  - none\n"@
    } else {
        recent_block(a.recent_lines())
    }
}

/// The dashboard text.
pub open spec fn dashboard_spec(a: EventAnalytics) -> Seq<char> {
    dashboard_header(a) + dashboard_topics(a) + counts_block("By type"@, count_views(a.by_type@))
        + counts_block("By route"@, count_views(a.by_route@)) + counts_block(
        "Alerts by severity"@,
        count_views(a.by_alert_severity@),
    ) + dashboard_recent(a)
}

/// Appends the lines of `items`.
fn push_count_lines(out: &mut String, items: &Vec<(String, usize)>)
    ensures
        final(out)@ == old(out)@ + count_lines(count_views(items@)),
{
    let ghost iv = count_views(items@);
    let ghost start = out@;
    let mut i: usize = 0;
    while i < items.len()
        invariant
            i <= items@.len(),
            iv == count_views(items@),
            out@ == start + count_lines(iv.take(i as int)),
        decreases items@.len() - i,
    {
        assert(iv.take(i + 1).drop_last() =~= iv.take(i as int));
        push_str(out, "  - ");
        push_str(out, items[i].0.as_str());
        push_str(out, ": ");
        push_str(out, decimal_string(items[i].1 as u64).as_str());
        push_str(out, "\n");
        i += 1;
    }
    assert(iv.take(i as int) =~= iv);
}

/// Appends a titled block of counts.
fn push_counts_block(out: &mut String, title: &str, counts: &Vec<(String, usize)>)
    ensures
        final(out)@ == old(out)@ + counts_block(title@, count_views(counts@)),
{
    push_str(out, title);
    push_str(out, ":\n");
    if counts.len() == 0 {
        push_str(out, "  - none\n");
    } else {
        let sorted = sorted_counts(counts, false);
        push_count_lines(out, &sorted);
    }
}

impl EventAnalytics {
    /// The `limit` most frequent leading topics, highest count first (ties
    /// by name).
    pub fn top_topics(&self, limit: usize) -> (r: Vec<(String, usize)>)
        ensures
            count_views(r@) == top_topics_spec(count_views(self.by_topic@), limit as nat),
    {
        let mut sorted = sorted_counts(&self.by_topic, true);
        proof {
            lemma_sort_counts_len(count_views(self.by_topic@), true);
        }
        if limit < sorted.len() {
            sorted.truncate(limit);
            assert(count_views(sorted@) =~= sort_counts(count_views(self.by_topic@), true).take(limit as int));
        }
        sorted
    }

    #[verifier::rlimit(40)]
    fn push_header(&self, out: &mut String)
        ensures
            final(out)@ == old(out)@ + dashboard_header(*self),
    {
        let ghost start = out@;
        push_str(out, "\nEvent Analytics Dashboard\n");
        push_str(out, "-------------------------\n");
        push_str(out, "Total events : ");
        push_str(out, decimal_string(self.total_events as u64).as_str());
        push_str(out, "\n");
        push_str(out, "Alerts fired : ");
        push_str(out, decimal_string(self.alert_count as u64).as_str());
        push_str(out, "\n");
        push_str(out, "Ledger range : ");
        match (self.first_ledger, self.last_ledger) {
            (Some(f), Some(l)) => {
                push_str(out, decimal_string(f as u64).as_str());
                push_str(out, "..");
                push_str(out, decimal_string(l as u64).as_str());
            },
            _ => {
                push_str(out, "n/a");
            },
        }
        push_str(out, "\n");
        match (self.first_ledger, self.last_ledger) {
            (Some(f), Some(l)) => {
                if f <= l {
                    push_str(out, "Event rate   : ");
                    push_str(
                        out,
                        format_two_decimals(self.total_events as u64, (l - f) as u64 + 1).as_str(),
                    );
                    push_str(out, " events/ledger\n");
                }
            },
            _ => {},
        }
        assert(out@ =~= start + dashboard_header(*self));
    }

    fn push_topics(&self, out: &mut String)
        ensures
            final(out)@ == old(out)@ + dashboard_topics(*self),
    {
        let ghost start = out@;
        push_str(out, "Top topics:\n");
        let top = self.top_topics(5);
        if top.len() == 0 {
            push_str(out, "  - none\n");
        } else {
            push_count_lines(out, &top);
        }
        assert(out@ =~= start + dashboard_topics(*self));
    }

    fn push_recent(&self, out: &mut String)
        ensures
            final(out)@ == old(out)@ + dashboard_recent(*self),
    {
        let ghost start0 = out@;
        push_str(out, "Recent events:\n");
        if self.recent.len() == 0 {
            push_str(out, "  - none\n");
        } else {
            let ghost lines = self.recent_lines();
            let ghost start = out@;
            let mut i: usize = 0;
            while i < self.recent.len()
                invariant
                    i <= self.recent@.len(),
                    lines == string_views(self.recent@),
                    out@ == start + recent_block(lines.take(i as int)),
                decreases self.recent@.len() - i,
            {
                assert(lines.take(i + 1).drop_last() =~= lines.take(i as int));
                push_str(out, "  - ");
                push_str(out, self.recent[i].as_str());
                push_str(out, "\n");
                i += 1;
                assert(out@ =~= start + recent_block(lines.take(i as int)));
            }
            assert(lines.take(i as int) =~= lines);
        }
        assert(out@ =~= start0 + dashboard_recent(*self));
    }

    /// The analytics dashboard.
    pub fn render_dashboard(&self) -> (r: String)
        ensures
            r@ == dashboard_spec(*self),
    {
        let mut out = String::new();
        self.push_header(&mut out);
        self.push_topics(&mut out);
        push_counts_block(&mut out, "By type", &self.by_type);
        push_counts_block(&mut out, "By route", &self.by_route);
        push_counts_block(&mut out, "Alerts by severity", &self.by_alert_severity);
        self.push_recent(&mut out);
        assert(out@ =~= dashboard_spec(*self));
        out
    }
}

} // verus!
