//! Finding identity and inline suppressions: the fingerprint that follows a
//! finding across edits, and the `starforge-allow` comments that silence one.

use vstd::prelude::*;
use vstd::utf8::encode_utf8;
use sha2::Digest;
use crate::security::best_practices::{line_views, ContractSource};
use crate::text::{
    chars_of, find_first, first_occurrence, is_ws, is_whitespace, join, join_spec, push_str,
    slice_chars, string_of, string_views, to_owned_string, trim, trim_chars,
};

verus! {

// ── Outside calls ─────────────────────────────────────────────────────────────

/// The SHA-256 digest of a byte string.
pub uninterp spec fn sha256_digest(data: Seq<u8>) -> Seq<u8>;

/// `sha2::Sha256::digest`: the 32-byte SHA-256 digest of `data`. The digest
/// itself is only named; its length is the algorithm's fixed output size.
#[verifier::external_body]
pub(crate) fn sha256(data: &[u8]) -> (r: Vec<u8>)
    ensures
        r@ == sha256_digest(data@),
        r@.len() == 32,
{
    sha2::Sha256::digest(data).to_vec()
}

/// The lower-case hexadecimal digit for `d < 16`.
pub open spec fn hex_digit(d: u8) -> char {
    if d < 10 {
        ((d + 48) as u8) as char
    } else {
        ((d + 87) as u8) as char
    }
}

/// Two lower-case hexadecimal digits per byte, most significant first.
pub open spec fn hex_lower(bytes: Seq<u8>) -> Seq<char>
    decreases bytes.len(),
{
    if bytes.len() == 0 {
        Seq::empty()
    } else {
        hex_lower(bytes.drop_last()) + seq![
            hex_digit(bytes.last() / 16),
            hex_digit(bytes.last() % 16),
        ]
    }
}

fn hex_char(d: u8) -> (c: char)
    requires
        d < 16,
    ensures
        c == hex_digit(d),
{
    if d < 10 {
        crate::text::char_from_ascii_code((d + 48) as u32)
    } else {
        crate::text::char_from_ascii_code((d + 87) as u32)
    }
}

/// The bytes as lower-case hexadecimal, two digits per byte, most
/// significant first.
pub(crate) fn hex_encode(bytes: &[u8]) -> (r: String)
    ensures
        r@ == hex_lower(bytes@),
{
    let mut out: Vec<char> = Vec::new();
    let mut i: usize = 0;
    while i < bytes.len()
        invariant
            i <= bytes@.len(),
            out@ == hex_lower(bytes@.take(i as int)),
        decreases bytes@.len() - i,
    {
        let b = bytes[i];
        out.push(hex_char(b / 16));
        out.push(hex_char(b % 16));
        proof {
            let t = bytes@.take(i + 1);
            assert(t.drop_last() =~= bytes@.take(i as int));
            assert(t.last() == b);
            assert(out@ =~= hex_lower(t));
        }
        i += 1;
    }
    assert(bytes@.take(i as int) =~= bytes@);
    crate::text::string_of(&out)
}

// ── Fingerprints ──────────────────────────────────────────────────────────────

/// The whitespace-separated words of `s` (`str::split_whitespace`).
pub open spec fn words(s: Seq<char>) -> Seq<Seq<char>>
    decreases s.len(),
{
    if s.len() == 0 {
        Seq::empty()
    } else {
        let w = words(s.drop_last());
        let c = s.last();
        if is_ws(c) {
            w
        } else if s.len() >= 2 && !is_ws(s[s.len() - 2]) {
            w.drop_last().push(w.last().push(c))
        } else {
            w.push(seq![c])
        }
    }
}

proof fn lemma_words_nonempty(s: Seq<char>)
    requires
        s.len() > 0,
        !is_ws(s.last()),
    ensures
        words(s).len() > 0,
{
}

/// The evidence with runs of whitespace collapsed to single spaces and the
/// ends trimmed.
pub open spec fn normalized(s: Seq<char>) -> Seq<char> {
    join_spec(words(s), " "@)
}

fn words_exec(s: &Vec<char>) -> (r: Vec<String>)
    ensures
        string_views(r@) == words(s@),
{
    let mut out: Vec<Vec<char>> = Vec::new();
    let mut i: usize = 0;
    while i < s.len()
        invariant
            i <= s@.len(),
            out@.map_values(|w: Vec<char>| w@) == words(s@.take(i as int)),
        decreases s@.len() - i,
    {
        let c = s[i];
        let ghost before = out@.map_values(|w: Vec<char>| w@);
        assert(s@.take(i + 1).drop_last() =~= s@.take(i as int));
        assert(s@.take(i + 1).last() == c);
        if !is_whitespace(c) {
            if i >= 1 && !is_whitespace(s[i - 1]) {
                assert(s@.take(i as int).last() == s@[i - 1]);
                proof {
                    lemma_words_nonempty(s@.take(i as int));
                }
                let mut last = out.pop().unwrap();
                last.push(c);
                out.push(last);
                assert(out@.map_values(|w: Vec<char>| w@) =~= before.drop_last().push(
                    before.last().push(c),
                ));
            } else {
                let mut w: Vec<char> = Vec::new();
                w.push(c);
                out.push(w);
                assert(out@.map_values(|w: Vec<char>| w@) =~= before.push(seq![c]));
            }
        }
        i += 1;
    }
    assert(s@.take(i as int) =~= s@);
    let mut r: Vec<String> = Vec::new();
    let mut k: usize = 0;
    while k < out.len()
        invariant
            k <= out@.len(),
            string_views(r@) =~= out@.map_values(|w: Vec<char>| w@).take(k as int),
        decreases out@.len() - k,
    {
        let w = string_of(&out[k]);
        proof {
            crate::text::lemma_string_views_push(r@, w);
        }
        r.push(w);
        k += 1;
    }
    assert(out@.map_values(|w: Vec<char>| w@).take(k as int) =~= out@.map_values(
        |w: Vec<char>| w@,
    ));
    r
}

/// The bytes hashed for a fingerprint: rule id, file, function and normalized
/// evidence, separated by zero bytes. The line is left out so that a finding
/// keeps its fingerprint when unrelated edits move it.
pub open spec fn fingerprint_input(
    rule_id: Seq<char>,
    file: Seq<char>,
    function: Seq<char>,
    evidence: Seq<char>,
) -> Seq<u8> {
    encode_utf8(rule_id) + seq![0u8] + encode_utf8(file) + seq![0u8] + encode_utf8(function)
        + seq![0u8] + encode_utf8(normalized(evidence))
}

/// A finding's fingerprint: the first eight digest bytes, in hexadecimal.
pub open spec fn fingerprint_spec(
    rule_id: Seq<char>,
    file: Seq<char>,
    function: Seq<char>,
    evidence: Seq<char>,
) -> Seq<char> {
    hex_lower(sha256_digest(fingerprint_input(rule_id, file, function, evidence)).take(8))
}

fn append_bytes(out: &mut Vec<u8>, b: &[u8])
    ensures
        final(out)@ == old(out)@ + b@,
{
    let mut i: usize = 0;
    while i < b.len()
        invariant
            i <= b@.len(),
            out@ == old(out)@ + b@.take(i as int),
        decreases b@.len() - i,
    {
        out.push(b[i]);
        i += 1;
        assert(out@ =~= old(out)@ + b@.take(i as int));
    }
    assert(b@.take(i as int) =~= b@);
}

/// The fingerprint of a finding (`function` is `""` when there is none).
pub fn fingerprint(rule_id: &str, file: &str, function: &str, evidence: &str) -> (r: String)
    ensures
        r@ == fingerprint_spec(rule_id@, file@, function@, evidence@),
{
    let ws = words_exec(&chars_of(evidence));
    let norm = join(&ws, " ");
    let mut data: Vec<u8> = Vec::new();
    append_bytes(&mut data, rule_id.as_bytes());
    data.push(0u8);
    append_bytes(&mut data, file.as_bytes());
    data.push(0u8);
    append_bytes(&mut data, function.as_bytes());
    data.push(0u8);
    append_bytes(&mut data, norm.as_str().as_bytes());
    assert(data@ =~= fingerprint_input(rule_id@, file@, function@, evidence@));
    let digest = sha256(&data);
    let mut head: Vec<u8> = Vec::new();
    let mut k: usize = 0;
    while k < 8
        invariant
            k <= 8,
            digest@.len() == 32,
            head@ == digest@.take(k as int),
        decreases 8 - k,
    {
        head.push(digest[k]);
        k += 1;
        assert(head@ =~= digest@.take(k as int));
    }
    hex_encode(&head)
}

// ── Suppressions ──────────────────────────────────────────────────────────────

/// `s` without its leading `:` characters.
pub open spec fn skip_colons(s: Seq<char>) -> Seq<char>
    decreases s.len(),
{
    if s.len() > 0 && s[0] == ':' {
        skip_colons(s.drop_first())
    } else {
        s
    }
}

/// The justification a line gives for silencing `rule_id`, if it carries the
/// marker `starforge-allow(RULE-ID)`.
pub open spec fn allow_on_line(text: Seq<char>, rule_id: Seq<char>) -> Option<Seq<char>> {
    let marker = "starforge-allow("@ + rule_id + ")"@;
    match first_occurrence(text, marker) {
        Some(i) => {
            let reason = trim(skip_colons(text.skip(i + marker.len())));
            Some(
                if reason.len() == 0 {
                    "no justification given"@
                } else {
                    reason
                },
            )
        },
        None => None,
    }
}

/// The text of 1-based line `l`, or nothing past the end.
pub open spec fn line_text(lines: Seq<Seq<char>>, l: int) -> Seq<char> {
    if 1 <= l <= lines.len() {
        lines[l - 1]
    } else {
        Seq::empty()
    }
}

/// The suppression of `rule_id` at line `line`: a marker on that line, or
/// else on the line above.
pub open spec fn suppression_spec(lines: Seq<Seq<char>>, line: int, rule_id: Seq<char>) -> Option<
    Seq<char>,
> {
    let here = if line >= 1 {
        allow_on_line(line_text(lines, line), rule_id)
    } else {
        None
    };
    match here {
        Some(j) => Some(j),
        None => if line - 1 >= 1 {
            allow_on_line(line_text(lines, line - 1), rule_id)
        } else {
            None
        },
    }
}

fn skip_colons_exec(s: &Vec<char>) -> (r: Vec<char>)
    ensures
        r@ == skip_colons(s@),
{
    let mut i: usize = 0;
    assert(s@.skip(0) =~= s@);
    while i < s.len() && s[i] == ':'
        invariant
            i <= s@.len(),
            skip_colons(s@) == skip_colons(s@.skip(i as int)),
        decreases s@.len() - i,
    {
        assert(s@.skip(i as int).drop_first() =~= s@.skip(i + 1));
        i += 1;
    }
    let r = slice_chars(s, i, s.len());
    assert(r@ =~= s@.skip(i as int));
    r
}

fn allow_on_line_exec(text: &str, rule_id: &str) -> (r: Option<String>)
    ensures
        match allow_on_line(text@, rule_id@) {
            Some(j) => r matches Some(s) && s@ == j,
            None => r is None,
        },
{
    let mut m = to_owned_string("starforge-allow(");
    push_str(&mut m, rule_id);
    push_str(&mut m, ")");
    let marker = chars_of(m.as_str());
    let chars = chars_of(text);
    let n = chars.len();
    match find_first(&chars, &marker) {
        Some(i) => {
            proof {
                crate::text::lemma_first_occurrence(text@, marker@, 0);
            }
            assert(crate::text::occurs_at(chars@, marker@, i as int));
            let after = slice_chars(&chars, i + marker.len(), chars.len());
            assert(after@ =~= text@.skip(i + marker@.len()));
            let reason = trim_chars(&skip_colons_exec(&after));
            if reason.len() == 0 {
                Some(to_owned_string("no justification given"))
            } else {
                Some(string_of(&reason))
            }
        },
        None => None,
    }
}

fn line_text_exec(lines: &Vec<String>, l: usize) -> (r: String)
    ensures
        r@ == line_text(line_views(lines@), l as int),
{
    if 1 <= l && l <= lines.len() {
        assert(line_views(lines@)[l - 1] == lines@[l - 1]@);
        to_owned_string(lines[l - 1].as_str())
    } else {
        String::new()
    }
}

/// The justification silencing `rule_id` at `line`, if any.
pub fn suppression(src: &ContractSource, line: usize, rule_id: &str) -> (r: Option<String>)
    ensures
        match suppression_spec(line_views(src.lines@), line as int, rule_id@) {
            Some(j) => r matches Some(s) && s@ == j,
            None => r is None,
        },
{
    if line >= 1 {
        match allow_on_line_exec(line_text_exec(&src.lines, line).as_str(), rule_id) {
            Some(j) => {
                return Some(j);
            },
            None => {},
        }
    }
    if line >= 2 {
        allow_on_line_exec(line_text_exec(&src.lines, line - 1).as_str(), rule_id)
    } else {
        None
    }
}

} // verus!
