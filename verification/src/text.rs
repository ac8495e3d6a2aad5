//! Character-level text helpers shared by the parsers and renderers.
//!
//! Text is handled as sequences of `char`; every helper states its result over
//! the character sequence (`s@`) of its input.

use vstd::prelude::*;

verus! {

// ── Conversions between `str`/`String` and character vectors ────────────────

/// The characters of `s`, in order (`str::chars` collected into a vector).
#[verifier::external_body]
pub fn chars_of(s: &str) -> (v: Vec<char>)
    ensures
        v@ == s@,
{
    s.chars().collect()
}

/// A `String` holding exactly the characters of `v` (`Iterator::collect`).
#[verifier::external_body]
pub fn string_of(v: &[char]) -> (s: String)
    ensures
        s@ == v@,
{
    v.iter().collect()
}

/// Appends one character to a `String` (`String::push`).
#[verifier::external_body]
pub fn push_char(s: &mut String, c: char)
    ensures
        final(s)@ == old(s)@.push(c),
{
    s.push(c)
}

/// Appends the characters of `t` to `s` (`String::push_str`).
#[verifier::external_body]
pub fn push_str(s: &mut String, t: &str)
    ensures
        final(s)@ == old(s)@ + t@,
{
    s.push_str(t)
}

/// A new `String` with the characters of `s`.
pub fn to_owned_string(s: &str) -> (r: String)
    ensures
        r@ == s@,
{
    s.to_owned()
}

/// Unicode lower-casing as done by `str::to_lowercase`; its full mapping is
/// the Unicode case table, so only its name is used in contracts.
pub uninterp spec fn unicode_lowercase(s: Seq<char>) -> Seq<char>;

/// Every character is a lower-case ASCII letter.
pub open spec fn lower_ascii_letters(s: Seq<char>) -> bool {
    forall|i: int| 0 <= i < s.len() ==> 'a' <= #[trigger] s[i] && s[i] <= 'z'
}

/// Every character is ASCII and none is an upper-case letter.
pub open spec fn ascii_without_upper(s: Seq<char>) -> bool {
    forall|i: int| 0 <= i < s.len() ==> (#[trigger] s[i] as u32) < 128 && !('A' <= s[i] && s[i] <= 'Z')
}

/// `str::to_lowercase`: the Unicode lower-case mapping, which maps every
/// ASCII character but the upper-case letters to itself (so text made of
/// such characters, lower-case ASCII letters among them, is left as it is).
#[verifier::external_body]
pub fn to_lowercase(s: &str) -> (r: String)
    ensures
        r@ == unicode_lowercase(s@),
        lower_ascii_letters(s@) ==> r@ == s@,
        ascii_without_upper(s@) ==> r@ == s@,
{
    s.to_lowercase()
}

/// Copy of a slice of characters.
pub fn copy_chars(v: &[char]) -> (r: Vec<char>)
    ensures
        r@ == v@,
{
    let mut r: Vec<char> = Vec::new();
    let mut i: usize = 0;
    while i < v.len()
        invariant
            i <= v@.len(),
            r@ == v@.take(i as int),
        decreases v@.len() - i,
    {
        r.push(v[i]);
        i += 1;
        assert(r@ =~= v@.take(i as int));
    }
    assert(v@.take(i as int) =~= v@);
    r
}

/// The characters of `v` in the index range `[start, end)`.
pub fn slice_chars(v: &[char], start: usize, end: usize) -> (r: Vec<char>)
    requires
        start <= end <= v@.len(),
    ensures
        r@ == v@.subrange(start as int, end as int),
{
    let mut r: Vec<char> = Vec::new();
    let mut i: usize = start;
    while i < end
        invariant
            start <= i <= end <= v@.len(),
            r@ == v@.subrange(start as int, i as int),
        decreases end - i,
    {
        r.push(v[i]);
        i += 1;
        assert(r@ =~= v@.subrange(start as int, i as int));
    }
    r
}

/// Concatenation of two character vectors.
pub fn concat_chars(a: &[char], b: &[char]) -> (r: Vec<char>)
    ensures
        r@ == a@ + b@,
{
    let mut r = copy_chars(a);
    let mut i: usize = 0;
    while i < b.len()
        invariant
            i <= b@.len(),
            r@ == a@ + b@.take(i as int),
        decreases b@.len() - i,
    {
        r.push(b[i]);
        i += 1;
        assert(r@ =~= a@ + b@.take(i as int));
    }
    assert(b@.take(i as int) =~= b@);
    r
}

// ── Equality and search ───────────────────────────────────────────────────────

/// Character-wise equality.
pub fn chars_eq(a: &[char], b: &[char]) -> (r: bool)
    ensures
        r == (a@ == b@),
{
    if a.len() != b.len() {
        return false;
    }
    let mut i: usize = 0;
    while i < a.len()
        invariant
            a@.len() == b@.len(),
            i <= a@.len(),
            forall|k: int| 0 <= k < i ==> a@[k] == b@[k],
        decreases a@.len() - i,
    {
        if a[i] != b[i] {
            return false;
        }
        i += 1;
    }
    assert(a@ =~= b@);
    true
}

/// Equality of a character vector with the characters of a `str`.
pub fn eq_str(a: &[char], s: &str) -> (r: bool)
    ensures
        r == (a@ == s@),
{
    let b = chars_of(s);
    chars_eq(a, &b)
}

/// Equality of the characters of two `str`s.
pub fn str_eq(a: &str, b: &str) -> (r: bool)
    ensures
        r == (a@ == b@),
{
    let x = chars_of(a);
    let y = chars_of(b);
    chars_eq(&x, &y)
}

/// `p` is a prefix of `s`.
pub open spec fn is_prefix(p: Seq<char>, s: Seq<char>) -> bool {
    p.len() <= s.len() && s.take(p.len() as int) == p
}

/// `needle` occurs in `s` starting at index `i`.
pub open spec fn occurs_at(s: Seq<char>, needle: Seq<char>, i: int) -> bool {
    0 <= i && i + needle.len() <= s.len() && s.subrange(i, i + needle.len()) == needle
}

/// `needle` occurs somewhere in `s` (`str::contains`).
pub open spec fn contains_seq(s: Seq<char>, needle: Seq<char>) -> bool {
    exists|i: int| occurs_at(s, needle, i)
}

/// Prefix test.
pub fn starts_with(s: &[char], p: &[char]) -> (r: bool)
    ensures
        r == is_prefix(p@, s@),
{
    if p.len() > s.len() {
        return false;
    }
    let mut i: usize = 0;
    while i < p.len()
        invariant
            p@.len() <= s@.len(),
            i <= p@.len(),
            forall|k: int| 0 <= k < i ==> s@[k] == p@[k],
        decreases p@.len() - i,
    {
        if s[i] != p[i] {
            assert(s@.take(p@.len() as int)[i as int] != p@[i as int]);
            return false;
        }
        i += 1;
    }
    assert(s@.take(p@.len() as int) =~= p@);
    true
}

/// Prefix test against the characters of a `str`.
pub fn starts_with_str(s: &[char], p: &str) -> (r: bool)
    ensures
        r == is_prefix(p@, s@),
{
    let pv = chars_of(p);
    starts_with(s, &pv)
}

/// Whether `needle` occurs in `s` at index `i`.
pub fn matches_at(s: &[char], needle: &[char], i: usize) -> (r: bool)
    ensures
        r == occurs_at(s@, needle@, i as int),
{
    if i > s.len() || needle.len() > s.len() - i {
        return false;
    }
    let mut k: usize = 0;
    while k < needle.len()
        invariant
            s@.len() <= usize::MAX,
            i + needle@.len() <= s@.len(),
            k <= needle@.len(),
            forall|j: int| 0 <= j < k ==> s@[i + j] == needle@[j],
        decreases needle@.len() - k,
    {
        if s[i + k] != needle[k] {
            assert(s@.subrange(i as int, i + needle@.len())[k as int] != needle@[k as int]);
            return false;
        }
        k += 1;
    }
    assert(s@.subrange(i as int, i + needle@.len()) =~= needle@);
    true
}

/// First index at which `needle` occurs in `s` (`str::find`).
pub fn find_seq(s: &[char], needle: &[char]) -> (r: Option<usize>)
    ensures
        match r {
            Some(i) => occurs_at(s@, needle@, i as int) && forall|j: int|
                0 <= j < i ==> !occurs_at(s@, needle@, j),
            None => !contains_seq(s@, needle@),
        },
{
    let mut i: usize = 0;
    while i < s.len()
        invariant
            i <= s@.len(),
            forall|j: int| 0 <= j < i ==> !occurs_at(s@, needle@, j),
        decreases s@.len() - i,
    {
        if matches_at(s, needle, i) {
            return Some(i);
        }
        i += 1;
    }
    if matches_at(s, needle, i) {
        return Some(i);
    }
    assert forall|j: int| !occurs_at(s@, needle@, j) by {
        if 0 <= j && j <= i {
        }
    }
    None
}

/// Substring test (`str::contains`).
pub fn contains(s: &[char], needle: &[char]) -> (r: bool)
    ensures
        r == contains_seq(s@, needle@),
{
    match find_seq(s, needle) {
        Some(_) => true,
        None => false,
    }
}

/// Substring test against the characters of a `str`.
pub fn contains_str(s: &[char], needle: &str) -> (r: bool)
    ensures
        r == contains_seq(s@, needle@),
{
    let n = chars_of(needle);
    contains(s, &n)
}

/// First index of `c` in `s`.
pub open spec fn first_index_of(s: Seq<char>, c: char) -> Option<int> {
    if exists|i: int| 0 <= i < s.len() && s[i] == c {
        Some(choose|i: int| 0 <= i < s.len() && s[i] == c && forall|j: int| 0 <= j < i ==> s[j] != c)
    } else {
        None
    }
}

/// Position of the first occurrence of `c` in `s`.
pub fn position_of(s: &[char], c: char) -> (r: Option<usize>)
    ensures
        match r {
            Some(i) => i < s@.len() && s@[i as int] == c && forall|j: int| 0 <= j < i ==> s@[j] != c,
            None => forall|j: int| 0 <= j < s@.len() ==> s@[j] != c,
        },
{
    let mut i: usize = 0;
    while i < s.len()
        invariant
            i <= s@.len(),
            forall|j: int| 0 <= j < i ==> s@[j] != c,
        decreases s@.len() - i,
    {
        if s[i] == c {
            return Some(i);
        }
        i += 1;
    }
    None
}

/// Position of the last occurrence of `c` in `s`.
pub fn last_position_of(s: &[char], c: char) -> (r: Option<usize>)
    ensures
        match r {
            Some(i) => i < s@.len() && s@[i as int] == c && forall|j: int| i < j < s@.len() ==> s@[j] != c,
            None => forall|j: int| 0 <= j < s@.len() ==> s@[j] != c,
        },
{
    let mut i: usize = s.len();
    while i > 0
        invariant
            i <= s@.len(),
            forall|j: int| i <= j < s@.len() ==> s@[j] != c,
        decreases i,
    {
        if s[i - 1] == c {
            return Some(i - 1);
        }
        i -= 1;
    }
    None
}

/// Split at the first `c` (`str::split_once`): the part before it and the
/// part after it.
pub open spec fn split_once_spec(s: Seq<char>, c: char) -> Option<(Seq<char>, Seq<char>)> {
    if exists|i: int| 0 <= i < s.len() && s[i] == c {
        let i = choose|i: int| 0 <= i < s.len() && s[i] == c && forall|j: int| 0 <= j < i ==> s[j] != c;
        Some((s.take(i), s.skip(i + 1)))
    } else {
        None
    }
}

/// The first occurrence of a character is unique.
pub proof fn lemma_first_index_unique(s: Seq<char>, c: char, i: int)
    requires
        0 <= i < s.len(),
        s[i] == c,
        forall|j: int| 0 <= j < i ==> s[j] != c,
    ensures
        (choose|k: int| 0 <= k < s.len() && s[k] == c && forall|j: int| 0 <= j < k ==> s[j] != c) == i,
{
    let k = choose|k: int| 0 <= k < s.len() && s[k] == c && forall|j: int| 0 <= j < k ==> s[j] != c;
    assert(0 <= k < s.len() && s[k] == c && forall|j: int| 0 <= j < k ==> s[j] != c);
    if k < i {
        assert(s[k] != c);
    }
    if i < k {
        assert(s[i] != c);
    }
}

/// `str::split_once` on a character.
pub fn split_once(s: &[char], c: char) -> (r: Option<(Vec<char>, Vec<char>)>)
    ensures
        match r {
            Some((a, b)) => split_once_spec(s@, c) == Some((a@, b@)),
            None => split_once_spec(s@, c) is None,
        },
{
    let n = s.len();
    let p = position_of(s, c);
    match p {
        Some(i) => {
            assert(i < s@.len());
            let a = slice_chars(s, 0, i);
            let b = slice_chars(s, i + 1, n);
            proof {
                lemma_first_index_unique(s@, c, i as int);
                assert(a@ =~= s@.take(i as int));
                assert(b@ =~= s@.skip(i + 1));
            }
            Some((a, b))
        },
        None => None,
    }
}

/// Pieces of `s` between occurrences of `c`, built left to right: the
/// finished pieces and the piece still being read.
pub open spec fn split_acc(s: Seq<char>, c: char) -> (Seq<Seq<char>>, Seq<char>)
    decreases s.len(),
{
    if s.len() == 0 {
        (Seq::empty(), Seq::empty())
    } else {
        let (done, cur) = split_acc(s.drop_last(), c);
        if s.last() == c {
            (done.push(cur), Seq::empty())
        } else {
            (done, cur.push(s.last()))
        }
    }
}

/// `str::split` on a character: always at least one piece.
pub open spec fn split_spec(s: Seq<char>, c: char) -> Seq<Seq<char>> {
    split_acc(s, c).0.push(split_acc(s, c).1)
}

/// Without the separator, the pieces so far are none and the current
/// piece is the whole text.
proof fn lemma_split_acc_absent(s: Seq<char>, c: char)
    requires
        forall|i: int| 0 <= i < s.len() ==> s[i] != c,
    ensures
        split_acc(s, c) == (Seq::<Seq<char>>::empty(), s),
    decreases s.len(),
{
    if s.len() > 0 {
        lemma_split_acc_absent(s.drop_last(), c);
        assert(s.drop_last().push(s.last()) =~= s);
    }
}

/// Text without the separator splits into itself alone.
pub proof fn lemma_split_absent(s: Seq<char>, c: char)
    requires
        forall|i: int| 0 <= i < s.len() ==> s[i] != c,
    ensures
        split_spec(s, c) == seq![s],
{
    lemma_split_acc_absent(s, c);
    assert(Seq::<Seq<char>>::empty().push(s) =~= seq![s]);
}

/// The character sequences of a vector of character vectors.
pub open spec fn views(v: Seq<Vec<char>>) -> Seq<Seq<char>> {
    v.map_values(|x: Vec<char>| x@)
}

/// `str::split` on a character.
pub fn split(s: &[char], c: char) -> (r: Vec<Vec<char>>)
    ensures
        views(r@) == split_spec(s@, c),
{
    let mut done: Vec<Vec<char>> = Vec::new();
    let mut cur: Vec<char> = Vec::new();
    let mut i: usize = 0;
    while i < s.len()
        invariant
            i <= s@.len(),
            (views(done@), cur@) == split_acc(s@.take(i as int), c),
        decreases s@.len() - i,
    {
        assert(s@.take(i + 1).drop_last() =~= s@.take(i as int));
        assert(s@.take(i + 1).last() == s@[i as int]);
        if s[i] == c {
            let piece = cur;
            done.push(piece);
            cur = Vec::new();
            assert(views(done@) =~= split_acc(s@.take(i as int), c).0.push(piece@));
        } else {
            cur.push(s[i]);
        }
        i += 1;
    }
    assert(s@.take(i as int) =~= s@);
    let last = cur;
    done.push(last);
    assert(views(done@) =~= split_acc(s@, c).0.push(last@));
    done
}

// ── Replacing ─────────────────────────────────────────────────────────────────

/// `str::replace` with a non-empty pattern: every non-overlapping occurrence
/// of `from`, scanning left to right, replaced by `to`.
pub open spec fn replace_spec(s: Seq<char>, from: Seq<char>, to: Seq<char>) -> Seq<char>
    decreases s.len(),
{
    if from.len() == 0 || s.len() < from.len() {
        s
    } else if s.take(from.len() as int) == from {
        to + replace_spec(s.skip(from.len() as int), from, to)
    } else {
        seq![s[0]] + replace_spec(s.skip(1), from, to)
    }
}

/// `str::replace` on character slices, for a non-empty pattern.
pub fn replace_all(s: &[char], from: &[char], to: &[char]) -> (r: Vec<char>)
    requires
        from@.len() > 0,
    ensures
        r@ == replace_spec(s@, from@, to@),
{
    let mut out: Vec<char> = Vec::new();
    let mut i: usize = 0;
    assert(s@.skip(0) =~= s@);
    while i < s.len()
        invariant
            i <= s@.len(),
            from@.len() > 0,
            out@ + replace_spec(s@.skip(i as int), from@, to@) == replace_spec(s@, from@, to@),
        decreases s@.len() - i,
    {
        let ghost rest = s@.skip(i as int);
        if s.len() - i >= from.len() && matches_at(s, from, i) {
            assert(rest.take(from@.len() as int) =~= from@);
            let mut k: usize = 0;
            let ghost before = out@;
            while k < to.len()
                invariant
                    k <= to@.len(),
                    out@ == before + to@.take(k as int),
                decreases to@.len() - k,
            {
                out.push(to[k]);
                k += 1;
                assert(out@ =~= before + to@.take(k as int));
            }
            assert(to@.take(k as int) =~= to@);
            assert(rest.skip(from@.len() as int) =~= s@.skip(i + from@.len()));
            assert(out@ + replace_spec(s@.skip(i + from@.len()), from@, to@) =~= before + replace_spec(rest, from@, to@));
            i += from.len();
        } else {
            proof {
                if rest.len() >= from@.len() {
                    assert(rest.take(from@.len() as int) != from@) by {
                        if rest.take(from@.len() as int) == from@ {
                            assert(occurs_at(s@, from@, i as int)) by {
                                assert(s@.subrange(i as int, i + from@.len()) =~= rest.take(from@.len() as int));
                            }
                        }
                    }
                    assert(rest.skip(1) =~= s@.skip(i + 1));
                } else {
                    assert(replace_spec(rest, from@, to@) == rest);
                    assert(replace_spec(s@.skip(i + 1), from@, to@) == s@.skip(i + 1)) by {
                        assert(s@.skip(i + 1).len() < from@.len());
                    }
                    assert(rest =~= seq![s@[i as int]] + s@.skip(i + 1));
                }
            }
            let ghost before = out@;
            out.push(s[i]);
            assert(out@ + replace_spec(s@.skip(i + 1), from@, to@) =~= before + replace_spec(rest, from@, to@));
            i += 1;
        }
    }
    assert(replace_spec(s@.skip(i as int), from@, to@) =~= Seq::<char>::empty());
    assert(out@ + Seq::<char>::empty() =~= out@);
    out
}

/// Replacing a pattern that does not occur leaves the text as it is.
pub proof fn lemma_replace_absent(s: Seq<char>, from: Seq<char>, to: Seq<char>)
    requires
        !contains_seq(s, from),
    ensures
        replace_spec(s, from, to) == s,
    decreases s.len(),
{
    if from.len() == 0 || s.len() < from.len() {
    } else {
        if s.take(from.len() as int) == from {
            assert(occurs_at(s, from, 0)) by {
                assert(s.subrange(0, from.len() as int) =~= s.take(from.len() as int));
            }
        }
        assert forall|i: int| !occurs_at(s.skip(1), from, i) by {
            if occurs_at(s.skip(1), from, i) {
                assert(s.subrange(i + 1, i + 1 + from.len()) =~= s.skip(1).subrange(i, i + from.len()));
                assert(occurs_at(s, from, i + 1));
            }
        }
        lemma_replace_absent(s.skip(1), from, to);
        assert(seq![s[0]] + s.skip(1) =~= s);
    }
}

/// Up to the first replacement, the output copies the input: a prefix of the
/// output is the same prefix of the input, or holds the first character of
/// the replacement.
proof fn lemma_replace_prefix(t: Seq<char>, from: Seq<char>, to: Seq<char>, k: int)
    requires
        from.len() > 0,
        to.len() > 0,
        0 <= k <= replace_spec(t, from, to).len(),
    ensures
        (k <= t.len() && replace_spec(t, from, to).take(k) == t.take(k))
            || replace_spec(t, from, to).take(k).contains(to[0]),
    decreases t.len(),
{
    let out = replace_spec(t, from, to);
    if t.len() < from.len() {
    } else if t.take(from.len() as int) == from {
        if k == 0 {
            assert(out.take(0) =~= t.take(0));
        } else {
            assert(out.take(k)[0] == to[0]);
        }
    } else {
        let rest = t.skip(1);
        let r = replace_spec(rest, from, to);
        assert(out == seq![t[0]] + r);
        if k == 0 {
            assert(out.take(0) =~= t.take(0));
        } else {
            lemma_replace_prefix(rest, from, to, k - 1);
            if r.take(k - 1).contains(to[0]) {
                let j = choose|j: int| 0 <= j < k - 1 && #[trigger] r.take(k - 1)[j] == to[0];
                assert(out.take(k)[j + 1] == to[0]);
            } else {
                assert(out.take(k) =~= seq![t[0]] + r.take(k - 1));
                assert(t.take(k) =~= seq![t[0]] + rest.take(k - 1));
            }
        }
    }
}

/// After replacing `from` by a text that starts and ends with characters
/// that `q` lacks, and in which `q` does not occur, `q` does not occur in
/// the output if it is `from` itself or did not occur in the input.
pub proof fn lemma_replace_leaves_absent(t: Seq<char>, from: Seq<char>, to: Seq<char>, q: Seq<char>)
    requires
        from.len() > 0,
        q.len() > 0,
        to.len() > 0,
        !q.contains(to[0]),
        !q.contains(to.last()),
        !contains_seq(to, q),
        q == from || !contains_seq(t, q),
    ensures
        !contains_seq(replace_spec(t, from, to), q),
    decreases t.len(),
{
    let out = replace_spec(t, from, to);
    if t.len() < from.len() {
        assert forall|i: int| !occurs_at(out, q, i) by {
            if occurs_at(out, q, i) && q != from {
                assert(occurs_at(t, q, i));
            }
        }
    } else if t.take(from.len() as int) == from {
        let rest = t.skip(from.len() as int);
        if q != from {
            assert forall|i: int| !occurs_at(rest, q, i) by {
                if occurs_at(rest, q, i) {
                    assert(t.subrange(i + from.len(), i + from.len() + q.len()) =~= rest.subrange(i, i + q.len()));
                    assert(occurs_at(t, q, i + from.len()));
                }
            }
        }
        lemma_replace_leaves_absent(rest, from, to, q);
        let r = replace_spec(rest, from, to);
        assert(out == to + r);
        assert forall|i: int| !occurs_at(out, q, i) by {
            if occurs_at(out, q, i) {
                if i + q.len() <= to.len() {
                    assert(to.subrange(i, i + q.len()) =~= out.subrange(i, i + q.len()));
                    assert(occurs_at(to, q, i));
                } else if i >= to.len() {
                    assert(r.subrange(i - to.len(), i - to.len() + q.len()) =~= out.subrange(i, i + q.len()));
                    assert(occurs_at(r, q, i - to.len()));
                } else {
                    let j = to.len() - 1 - i;
                    assert(out.subrange(i, i + q.len())[j] == out[to.len() - 1]);
                    assert(q[j] == to.last());
                }
            }
        }
    } else {
        let rest = t.skip(1);
        if q != from {
            assert forall|i: int| !occurs_at(rest, q, i) by {
                if occurs_at(rest, q, i) {
                    assert(t.subrange(i + 1, i + 1 + q.len()) =~= rest.subrange(i, i + q.len()));
                    assert(occurs_at(t, q, i + 1));
                }
            }
        }
        lemma_replace_leaves_absent(rest, from, to, q);
        let r = replace_spec(rest, from, to);
        assert(out == seq![t[0]] + r);
        assert forall|i: int| !occurs_at(out, q, i) by {
            if occurs_at(out, q, i) {
                if i >= 1 {
                    assert(r.subrange(i - 1, i - 1 + q.len()) =~= out.subrange(i, i + q.len()));
                    assert(occurs_at(r, q, i - 1));
                } else {
                    let k = q.len() - 1;
                    lemma_replace_prefix(rest, from, to, k);
                    if r.take(k).contains(to[0]) {
                        let j = choose|j: int| 0 <= j < k && #[trigger] r.take(k)[j] == to[0];
                        assert(out.subrange(0, q.len() as int)[j + 1] == r.take(k)[j]);
                        assert(q[j + 1] == to[0]);
                    } else {
                        assert(out.subrange(0, q.len() as int) =~= seq![t[0]] + r.take(k));
                        assert(t.take(q.len() as int) =~= seq![t[0]] + rest.take(k));
                        assert(t.subrange(0, q.len() as int) =~= t.take(q.len() as int));
                        assert(occurs_at(t, q, 0));
                    }
                }
            }
        }
    }
}

/// A text none of whose characters is the first character of `q` does not
/// hold `q`.
pub proof fn lemma_absent_by_first(s: Seq<char>, q: Seq<char>)
    requires
        q.len() > 0,
        !s.contains(q[0]),
    ensures
        !contains_seq(s, q),
{
    assert forall|i: int| !occurs_at(s, q, i) by {
        if occurs_at(s, q, i) {
            assert(s.subrange(i, i + q.len())[0] == s[i]);
        }
    }
}


// ── Whitespace and trimming ───────────────────────────────────────────────────

/// Unicode `White_Space` (the set `char::is_whitespace` tests).
pub open spec fn is_ws(c: char) -> bool {
    let u = c as u32;
    (0x9 <= u && u <= 0xd) || u == 0x20 || u == 0x85 || u == 0xa0 || u == 0x1680 || (0x2000 <= u
        && u <= 0x200a) || u == 0x2028 || u == 0x2029 || u == 0x202f || u == 0x205f || u == 0x3000
}

/// `char::is_whitespace`.
pub fn is_whitespace(c: char) -> (r: bool)
    ensures
        r == is_ws(c),
{
    let u = c as u32;
    (0x9 <= u && u <= 0xd) || u == 0x20 || u == 0x85 || u == 0xa0 || u == 0x1680 || (0x2000 <= u
        && u <= 0x200a) || u == 0x2028 || u == 0x2029 || u == 0x202f || u == 0x205f || u == 0x3000
}

/// `str::trim_start`.
pub open spec fn trim_start(s: Seq<char>) -> Seq<char>
    decreases s.len(),
{
    if s.len() > 0 && is_ws(s[0]) {
        trim_start(s.drop_first())
    } else {
        s
    }
}

/// `str::trim_end`.
pub open spec fn trim_end(s: Seq<char>) -> Seq<char>
    decreases s.len(),
{
    if s.len() > 0 && is_ws(s.last()) {
        trim_end(s.drop_last())
    } else {
        s
    }
}

/// `str::trim`.
pub open spec fn trim(s: Seq<char>) -> Seq<char> {
    trim_end(trim_start(s))
}

/// Trimming never lengthens a sequence.
pub proof fn lemma_trim_len(s: Seq<char>)
    ensures
        trim_start(s).len() <= s.len(),
        trim_end(s).len() <= s.len(),
        trim(s).len() <= s.len(),
{
    lemma_trim_start_len(s);
    lemma_trim_end_len(s);
    lemma_trim_end_len(trim_start(s));
}

proof fn lemma_trim_start_len(s: Seq<char>)
    ensures
        trim_start(s).len() <= s.len(),
    decreases s.len(),
{
    if s.len() > 0 && is_ws(s[0]) {
        lemma_trim_start_len(s.drop_first());
    }
}

proof fn lemma_trim_end_len(s: Seq<char>)
    ensures
        trim_end(s).len() <= s.len(),
    decreases s.len(),
{
    if s.len() > 0 && is_ws(s.last()) {
        lemma_trim_end_len(s.drop_last());
    }
}

/// Text that neither starts nor ends with white space is its own trim.
pub proof fn lemma_trim_unchanged(s: Seq<char>)
    requires
        s.len() > 0,
        !is_ws(s[0]),
        !is_ws(s.last()),
    ensures
        trim(s) == s,
{
    assert(trim_start(s) == s);
    assert(trim_end(s) == s);
}

/// Index of the first non-whitespace character (or the length).
fn trim_start_index(s: &[char]) -> (i: usize)
    ensures
        i <= s@.len(),
        s@.skip(i as int) == trim_start(s@),
{
    let mut i: usize = 0;
    assert(s@.skip(0) =~= s@);
    while i < s.len() && is_whitespace(s[i])
        invariant
            i <= s@.len(),
            trim_start(s@.skip(i as int)) == trim_start(s@),
        decreases s@.len() - i,
    {
        assert(s@.skip(i as int).drop_first() =~= s@.skip(i + 1));
        i += 1;
    }
    i
}

/// End index (exclusive) of `s[..end]` once trailing whitespace is removed.
fn trim_end_index(s: &[char], start: usize) -> (j: usize)
    requires
        start <= s@.len(),
    ensures
        start <= j <= s@.len(),
        s@.subrange(start as int, j as int) == trim_end(s@.subrange(start as int, s@.len() as int)),
{
    let mut j: usize = s.len();
    while j > start && is_whitespace(s[j - 1])
        invariant
            start <= j <= s@.len(),
            trim_end(s@.subrange(start as int, j as int)) == trim_end(
                s@.subrange(start as int, s@.len() as int),
            ),
        decreases j,
    {
        assert(s@.subrange(start as int, j as int).drop_last() =~= s@.subrange(
            start as int,
            j - 1,
        ));
        j -= 1;
    }
    j
}

/// `str::trim` on a character slice.
pub fn trim_chars(s: &[char]) -> (r: Vec<char>)
    ensures
        r@ == trim(s@),
{
    let i = trim_start_index(s);
    let j = trim_end_index(s, i);
    assert(s@.subrange(i as int, s@.len() as int) =~= s@.skip(i as int));
    slice_chars(s, i, j)
}

/// `str::trim_start` on a character slice.
pub fn trim_start_chars(s: &[char]) -> (r: Vec<char>)
    ensures
        r@ == trim_start(s@),
{
    let i = trim_start_index(s);
    let r = slice_chars(s, i, s.len());
    assert(r@ =~= s@.skip(i as int));
    r
}

/// `str::trim_end` on a character slice.
pub fn trim_end_chars(s: &[char]) -> (r: Vec<char>)
    ensures
        r@ == trim_end(s@),
{
    let j = trim_end_index(s, 0);
    assert(s@.subrange(0, s@.len() as int) =~= s@);
    slice_chars(s, 0, j)
}

/// `str::trim` on a `str`.
pub fn trim_str(s: &str) -> (r: Vec<char>)
    ensures
        r@ == trim(s@),
{
    let v = chars_of(s);
    trim_chars(&v)
}

// ── ASCII case ─────────────────────────────────────────────────────────────────

/// `char::to_ascii_lowercase`.
pub open spec fn ascii_lower(c: char) -> char {
    if 'A' <= c && c <= 'Z' {
        ((c as u32) + 32) as char
    } else {
        c
    }
}

/// `str::to_ascii_lowercase`.
pub open spec fn ascii_lower_seq(s: Seq<char>) -> Seq<char> {
    s.map_values(|c: char| ascii_lower(c))
}

/// Lower-cases one ASCII letter.
pub fn lower_ascii_char(c: char) -> (r: char)
    ensures
        r == ascii_lower(c),
{
    if 'A' <= c && c <= 'Z' {
        let u = (c as u32) + 32;
        assert(0x61 <= u <= 0x7a);
        char_from_ascii_code(u)
    } else {
        c
    }
}

/// The character with an ASCII code point.
pub fn char_from_ascii_code(u: u32) -> (c: char)
    requires
        u < 0x80,
    ensures
        c == u as char,
        c as u32 == u,
{
    let b = u as u8;
    b as char
}

/// `str::to_ascii_lowercase` on a character slice.
pub fn ascii_lowercase(s: &[char]) -> (r: Vec<char>)
    ensures
        r@ == ascii_lower_seq(s@),
{
    let mut r: Vec<char> = Vec::new();
    let mut i: usize = 0;
    while i < s.len()
        invariant
            i <= s@.len(),
            r@ == ascii_lower_seq(s@.take(i as int)),
        decreases s@.len() - i,
    {
        r.push(lower_ascii_char(s[i]));
        i += 1;
        assert(r@ =~= ascii_lower_seq(s@.take(i as int)));
    }
    assert(s@.take(i as int) =~= s@);
    r
}

// ── Decimal numbers ────────────────────────────────────────────────────────────

/// An ASCII decimal digit.
pub open spec fn is_digit(c: char) -> bool {
    '0' <= c && c <= '9'
}

/// Value of a digit character.
pub open spec fn digit_value(c: char) -> nat {
    ((c as u32) - ('0' as u32)) as nat
}

/// Value of a sequence of decimal digits (most significant first).
pub open spec fn digits_value(s: Seq<char>) -> nat
    decreases s.len(),
{
    if s.len() == 0 {
        0
    } else {
        digits_value(s.drop_last()) * 10 + digit_value(s.last())
    }
}

/// All characters of `s` are decimal digits.
pub open spec fn all_digits(s: Seq<char>) -> bool {
    forall|i: int| 0 <= i < s.len() ==> is_digit(#[trigger] s[i])
}

/// Digits after an optional leading `+`, as unsigned integer parsing
/// (`FromStr` for `u8`..`u64`, `usize`) reads them.
pub open spec fn unsigned_digits(s: Seq<char>) -> Seq<char> {
    if s.len() > 0 && s[0] == '+' {
        s.drop_first()
    } else {
        s
    }
}

/// `s.parse::<uN>()` where `max` is `uN::MAX`: `Some(value)` exactly when the
/// text is an optional `+` followed by at least one digit and the value fits.
pub open spec fn parse_unsigned_spec(s: Seq<char>, max: nat) -> Option<nat> {
    let d = unsigned_digits(s);
    if d.len() > 0 && all_digits(d) && digits_value(d) <= max {
        Some(digits_value(d))
    } else {
        None
    }
}

/// A longer digit string never has a smaller value.
pub proof fn lemma_digits_value_prefix(s: Seq<char>, k: int)
    requires
        0 <= k <= s.len(),
        all_digits(s),
    ensures
        digits_value(s.take(k)) <= digits_value(s),
    decreases s.len() - k,
{
    if k < s.len() {
        lemma_digits_value_prefix(s, k + 1);
        assert(s.take(k + 1).drop_last() =~= s.take(k));
        assert(is_digit(s[k]));
    } else {
        assert(s.take(k) =~= s);
    }
}

/// Parses unsigned decimal text bounded by `max`.
pub fn parse_unsigned(s: &[char], max: u64) -> (r: Option<u64>)
    ensures
        match r {
            Some(v) => parse_unsigned_spec(s@, max as nat) == Some(v as nat),
            None => parse_unsigned_spec(s@, max as nat) is None,
        },
{
    let start: usize = if s.len() > 0 && s[0] == '+' {
        1
    } else {
        0
    };
    let ghost d = unsigned_digits(s@);
    assert(d =~= s@.skip(start as int));
    if start >= s.len() {
        return None;
    }
    let mut acc: u64 = 0;
    let mut i: usize = start;
    while i < s.len()
        invariant
            start <= i <= s@.len(),
            d == s@.skip(start as int),
            d == unsigned_digits(s@),
            acc as nat == digits_value(d.take(i - start)),
            acc <= max,
            all_digits(d.take(i - start)),
        decreases s@.len() - i,
    {
        let c = s[i];
        let ghost j: int = i - start;
        assert(d[j] == c);
        assert(d.take(i - start + 1).drop_last() =~= d.take(i - start));
        if !('0' <= c && c <= '9') {
            assert(!is_digit(d[j]));
            assert(!all_digits(d));
            return None;
        }
        let dv: u64 = (c as u32 - '0' as u32) as u64;
        assert(all_digits(d.take(i - start + 1)));
        if dv > max || acc > (max - dv) / 10 {
            proof {
                if dv <= max {
                    assert(acc * 10 + dv > max) by (nonlinear_arith)
                        requires
                            acc > (max - dv) / 10,
                            dv <= max,
                    ;
                }
                assert(digits_value(d.take(j + 1)) == acc * 10 + dv);
                if all_digits(d) {
                    lemma_digits_value_prefix(d, j + 1);
                }
            }
            return None;
        }
        proof {
            assert(acc * 10 + dv <= max) by (nonlinear_arith)
                requires
                    acc <= (max - dv) / 10,
                    dv <= max,
            ;
        }
        acc = acc * 10 + dv;
        i += 1;
    }
    assert(d.take(i - start) =~= d);
    Some(acc)
}

/// The digit character of a value below ten.
pub open spec fn digit_char(d: nat) -> char {
    ((d + 48) as u32) as char
}

/// Decimal text of a natural number (`ToString` for unsigned integers).
pub open spec fn decimal(n: nat) -> Seq<char>
    decreases n,
{
    if n < 10 {
        seq![digit_char(n)]
    } else {
        decimal(n / 10).push(digit_char(n % 10))
    }
}

/// The digit character of a value below ten is a digit of that value, and no
/// white space.
pub proof fn lemma_digit_char(d: nat)
    requires
        d < 10,
    ensures
        is_digit(digit_char(d)),
        digit_value(digit_char(d)) == d,
        !is_ws(digit_char(d)),
        digit_char(d) != '+',
{
}

/// Decimal text is a non-empty run of digits that reads back as its number.
pub proof fn lemma_decimal_digits(n: nat)
    ensures
        decimal(n).len() > 0,
        all_digits(decimal(n)),
        digits_value(decimal(n)) == n,
    decreases n,
{
    if n < 10 {
        lemma_digit_char(n);
        assert(decimal(n) =~= seq![digit_char(n)]);
        assert(decimal(n).drop_last() =~= Seq::<char>::empty());
        assert(digits_value(decimal(n)) == digits_value(Seq::<char>::empty()) * 10 + digit_value(
            digit_char(n),
        ));
    } else {
        lemma_decimal_digits(n / 10);
        lemma_digit_char(n % 10);
        let d = decimal(n);
        assert(d.drop_last() =~= decimal(n / 10));
        assert forall|i: int| 0 <= i < d.len() implies is_digit(#[trigger] d[i]) by {
            if i < d.len() - 1 {
                assert(d[i] == decimal(n / 10)[i]);
            }
        }
        assert(d.last() == digit_char(n % 10));
        assert(digits_value(d) == digits_value(decimal(n / 10)) * 10 + digit_value(d.last()));
        assert((n / 10) * 10 + n % 10 == n);
    }
}

/// The digit character for a value below ten.
pub fn digit_to_char(d: u64) -> (c: char)
    requires
        d < 10,
    ensures
        c == digit_char(d as nat),
{
    char_from_ascii_code((d + 48) as u32)
}

/// Appends the decimal text of `n`.
pub fn push_decimal(out: &mut Vec<char>, n: u64)
    ensures
        final(out)@ == old(out)@ + decimal(n as nat),
    decreases n,
{
    if n < 10 {
        out.push(digit_to_char(n));
        assert(decimal(n as nat) =~= seq![digit_char(n as nat)]);
    } else {
        push_decimal(out, n / 10);
        out.push(digit_to_char(n % 10));
    }
}

/// Appends the decimal text of a `u128`.
pub fn push_decimal_wide(out: &mut Vec<char>, n: u128)
    ensures
        final(out)@ == old(out)@ + decimal(n as nat),
    decreases n,
{
    if n < 10 {
        out.push(digit_to_char(n as u64));
        assert(decimal(n as nat) =~= seq![digit_char(n as nat)]);
    } else {
        push_decimal_wide(out, n / 10);
        out.push(digit_to_char((n % 10) as u64));
    }
}

/// Decimal text of a `u128` as a `String`.
pub fn decimal_string_wide(n: u128) -> (r: String)
    ensures
        r@ == decimal(n as nat),
{
    let mut v: Vec<char> = Vec::new();
    push_decimal_wide(&mut v, n);
    assert(v@ =~= decimal(n as nat));
    string_of(&v)
}

/// Decimal text of `n` (`n.to_string()`).
pub fn decimal_chars(n: u64) -> (r: Vec<char>)
    ensures
        r@ == decimal(n as nat),
{
    let mut r: Vec<char> = Vec::new();
    push_decimal(&mut r, n);
    assert(r@ =~= decimal(n as nat));
    r
}

/// Decimal text of `n` as a `String`.
pub fn decimal_string(n: u64) -> (r: String)
    ensures
        r@ == decimal(n as nat),
{
    let v = decimal_chars(n);
    string_of(&v)
}


// ── Joining and grouping ───────────────────────────────────────────────────────

/// `parts` joined with `sep` between consecutive parts (`[T]::join`).
pub open spec fn join_spec(parts: Seq<Seq<char>>, sep: Seq<char>) -> Seq<char>
    decreases parts.len(),
{
    if parts.len() == 0 {
        Seq::empty()
    } else if parts.len() == 1 {
        parts[0]
    } else {
        join_spec(parts.drop_last(), sep) + sep + parts.last()
    }
}

/// The views of a sequence of strings.
pub open spec fn string_views(v: Seq<String>) -> Seq<Seq<char>> {
    v.map_values(|s: String| s@)
}

/// Views after a push.
pub proof fn lemma_string_views_push(v: Seq<String>, x: String)
    ensures
        string_views(v.push(x)) == string_views(v).push(x@),
{
    let a = string_views(v.push(x));
    let b = string_views(v).push(x@);
    assert forall|i: int| 0 <= i < a.len() implies a[i] == b[i] by {
        if i < v.len() {
            assert(v.push(x)[i] == v[i]);
        }
    }
    assert(a =~= b);
}

/// `[String]::join`.
pub fn join(parts: &Vec<String>, sep: &str) -> (r: String)
    ensures
        r@ == join_spec(string_views(parts@), sep@),
{
    let mut out = String::new();
    let mut i: usize = 0;
    while i < parts.len()
        invariant
            i <= parts@.len(),
            out@ == join_spec(string_views(parts@).take(i as int), sep@),
        decreases parts@.len() - i,
    {
        let ghost before = string_views(parts@).take(i as int);
        if i > 0 {
            push_str(&mut out, sep);
        }
        push_str(&mut out, parts[i].as_str());
        i += 1;
        proof {
            let now = string_views(parts@).take(i as int);
            assert(now.drop_last() =~= before);
            if i == 1 {
                assert(before =~= Seq::<Seq<char>>::empty());
                assert(out@ =~= now[0]);
            }
        }
    }
    assert(string_views(parts@).take(i as int) =~= string_views(parts@));
    out
}

/// Digits grouped in threes from the right, separated by commas.
pub open spec fn thousands(d: Seq<char>) -> Seq<char>
    decreases d.len(),
{
    if d.len() <= 3 {
        d
    } else {
        thousands(d.take(d.len() - 3)) + seq![','] + d.skip(d.len() - 3)
    }
}

fn group_thousands(d: &[char]) -> (r: Vec<char>)
    ensures
        r@ == thousands(d@),
    decreases d@.len(),
{
    let n = d.len();
    if n <= 3 {
        return copy_chars(d);
    }
    let head = slice_chars(d, 0, n - 3);
    let mut r = group_thousands(&head);
    r.push(',');
    let mut i: usize = n - 3;
    let ghost before = r@;
    while i < n
        invariant
            n == d@.len(),
            n > 3,
            n - 3 <= i <= n,
            r@ == before + d@.subrange(n - 3, i as int),
        decreases n - i,
    {
        r.push(d[i]);
        assert(d@.subrange(n - 3, i + 1) =~= d@.subrange(n - 3, i as int).push(d@[i as int]));
        i += 1;
    }
    assert(d@.subrange(n - 3, n as int) =~= d@.skip(n - 3));
    assert(head@ =~= d@.take(n - 3));
    r
}

/// A number with thousands separators (`1,274,180`).
pub fn format_thousands(value: u64) -> (r: String)
    ensures
        r@ == thousands(decimal(value as nat)),
{
    let digits = decimal_chars(value);
    let g = group_thousands(&digits);
    string_of(&g)
}

// ── Searching in strings ───────────────────────────────────────────────────────

/// The first index, from `i` on, at which `needle` occurs in `s`.
pub open spec fn first_occurrence_from(s: Seq<char>, needle: Seq<char>, i: int) -> Option<int>
    decreases s.len() + 1 - i,
{
    if i < 0 || i > s.len() {
        None
    } else if occurs_at(s, needle, i) {
        Some(i)
    } else {
        first_occurrence_from(s, needle, i + 1)
    }
}

/// What `first_occurrence_from` finds is an occurrence, at or after `i`.
pub proof fn lemma_first_occurrence(s: Seq<char>, needle: Seq<char>, i: int)
    ensures
        match first_occurrence_from(s, needle, i) {
            Some(k) => occurs_at(s, needle, k) && k >= i,
            None => true,
        },
    decreases s.len() + 1 - i,
{
    if 0 <= i <= s.len() && !occurs_at(s, needle, i) {
        lemma_first_occurrence(s, needle, i + 1);
    }
}

/// The first index at which `needle` occurs in `s` (`str::find`).
pub open spec fn first_occurrence(s: Seq<char>, needle: Seq<char>) -> Option<int> {
    first_occurrence_from(s, needle, 0)
}

/// `str::find` on character slices.
pub fn find_first(s: &[char], needle: &[char]) -> (r: Option<usize>)
    ensures
        match r {
            Some(i) => first_occurrence(s@, needle@) == Some(i as int),
            None => first_occurrence(s@, needle@) is None,
        },
{
    let mut i: usize = 0;
    let n = s.len();
    while i <= s.len()
        invariant
            i <= s@.len() + 1,
            s@.len() <= usize::MAX,
            first_occurrence(s@, needle@) == first_occurrence_from(s@, needle@, i as int),
        decreases s@.len() + 1 - i,
    {
        if matches_at(s, needle, i) {
            return Some(i);
        }
        if i == s.len() {
            assert(first_occurrence_from(s@, needle@, i + 1) is None);
            return None;
        }
        i += 1;
    }
    None
}

/// Substring test on `str`s.
pub fn str_contains(hay: &str, needle: &str) -> (r: bool)
    ensures
        r == contains_seq(hay@, needle@),
{
    let h = chars_of(hay);
    let n = chars_of(needle);
    contains(&h, &n)
}

// ── Ordering ──────────────────────────────────────────────────────────────────

/// `a` sorts strictly before `b` character by character (`str` order).
pub open spec fn seq_lt(a: Seq<char>, b: Seq<char>) -> bool
    decreases a.len(),
{
    if a.len() == 0 {
        b.len() > 0
    } else if b.len() == 0 {
        false
    } else if a[0] != b[0] {
        a[0] < b[0]
    } else {
        seq_lt(a.drop_first(), b.drop_first())
    }
}

pub proof fn lemma_seq_lt_asym(a: Seq<char>, b: Seq<char>)
    ensures
        seq_lt(a, b) ==> !seq_lt(b, a),
        !seq_lt(a, a),
    decreases a.len(),
{
    if a.len() > 0 && b.len() > 0 && a[0] == b[0] {
        lemma_seq_lt_asym(a.drop_first(), b.drop_first());
    }
    if a.len() > 0 {
        lemma_seq_lt_asym(a.drop_first(), a.drop_first());
    }
}

pub proof fn lemma_seq_lt_total(a: Seq<char>, b: Seq<char>)
    ensures
        a != b ==> seq_lt(a, b) || seq_lt(b, a),
    decreases a.len(),
{
    if a.len() > 0 && b.len() > 0 && a[0] == b[0] {
        lemma_seq_lt_total(a.drop_first(), b.drop_first());
        if a.drop_first() == b.drop_first() {
            assert(a =~= seq![a[0]] + a.drop_first());
            assert(b =~= seq![b[0]] + b.drop_first());
        }
    }
    if a.len() == 0 && b.len() == 0 {
        assert(a =~= b);
    }
}

pub proof fn lemma_seq_lt_trans(a: Seq<char>, b: Seq<char>, c: Seq<char>)
    requires
        seq_lt(a, b),
        seq_lt(b, c),
    ensures
        seq_lt(a, c),
    decreases a.len(),
{
    if a.len() > 0 && b.len() > 0 && c.len() > 0 && a[0] == b[0] && b[0] == c[0] {
        lemma_seq_lt_trans(a.drop_first(), b.drop_first(), c.drop_first());
    }
}

/// `a` sorts strictly before `b`.
pub fn str_lt(a: &str, b: &str) -> (r: bool)
    ensures
        r == seq_lt(a@, b@),
{
    let x = chars_of(a);
    let y = chars_of(b);
    let mut i: usize = 0;
    assert(x@.skip(0) =~= x@);
    assert(y@.skip(0) =~= y@);
    while i < x.len() && i < y.len()
        invariant
            i <= x@.len(),
            i <= y@.len(),
            seq_lt(a@, b@) == seq_lt(x@.skip(i as int), y@.skip(i as int)),
        decreases x@.len() - i,
    {
        assert(x@.skip(i as int).drop_first() =~= x@.skip(i + 1));
        assert(y@.skip(i as int).drop_first() =~= y@.skip(i + 1));
        if x[i] != y[i] {
            return x[i] < y[i];
        }
        i += 1;
    }
    i < y.len()
}

} // verus!
