//! Report helpers: output formats, bar charts and suggestion listings.

use vstd::prelude::*;
use crate::gas_profiler::suggest::{basis_name, severity_upper, Suggestion};
use crate::text::{ascii_lower_seq, ascii_lowercase, chars_of, decimal, decimal_string, eq_str, push_char, push_str, string_of, to_owned_string};

verus! {

/// Output format for gas reports.
#[derive(Debug, Clone, Copy, PartialEq, Eq, Structural)]
pub enum Format {
    Text,
    Json,
    Markdown,
}

/// The format a (lower-cased) word names.
pub open spec fn format_of_word(w: Seq<char>) -> Option<Format> {
    if w == "text"@ || w == "txt"@ {
        Some(Format::Text)
    } else if w == "json"@ {
        Some(Format::Json)
    } else if w == "markdown"@ || w == "md"@ {
        Some(Format::Markdown)
    } else {
        None
    }
}

/// The extension of a file path as `std::path::Path::extension` finds it
/// (the part of the file name after its last dot, if any).
pub uninterp spec fn path_extension_of(path: Seq<char>) -> Option<Seq<char>>;

/// `Path::new(path).extension()`, as text.
#[verifier::external_body]
fn path_extension(path: &str) -> (r: Option<String>)
    ensures
        match r {
            Some(e) => path_extension_of(path@) == Some(e@),
            None => path_extension_of(path@) is None,
        },
{
    std::path::Path::new(path).extension().and_then(|e| e.to_str()).map(|e| e.to_string())
}

/// The format an extension stands for.
pub open spec fn format_of_extension(e: Option<Seq<char>>) -> Option<Format> {
    match e {
        Some(x) => if x == "json"@ {
            Some(Format::Json)
        } else if x == "md"@ || x == "markdown"@ {
            Some(Format::Markdown)
        } else if x == "txt"@ {
            Some(Format::Text)
        } else {
            None
        },
        None => None,
    }
}

impl Format {
    /// Parses `text`/`txt`, `json` or `markdown`/`md`, ignoring ASCII case.
    pub fn parse(s: &str) -> (r: Result<Format, String>)
        ensures
            match format_of_word(ascii_lower_seq(s@)) {
                Some(f) => r == Ok::<Format, String>(f),
                None => r matches Err(m) && m@ == "unknown format '"@ + ascii_lower_seq(s@)
                    + "': use text, json or markdown"@,
            },
    {
        let c = chars_of(s);
        let w = ascii_lowercase(&c);
        if eq_str(&w, "text") || eq_str(&w, "txt") {
            Ok(Format::Text)
        } else if eq_str(&w, "json") {
            Ok(Format::Json)
        } else if eq_str(&w, "markdown") || eq_str(&w, "md") {
            Ok(Format::Markdown)
        } else {
            let mut m = to_owned_string("unknown format '");
            push_str(&mut m, string_of(&w).as_str());
            push_str(&mut m, "': use text, json or markdown");
            Err(m)
        }
    }

    /// Guesses a format from an output file's extension (exact, lower case).
    pub fn from_extension(path: &str) -> (r: Option<Format>)
        ensures
            r == format_of_extension(path_extension_of(path@)),
    {
        match path_extension(path) {
            Some(e) => Format::from_extension_text(e.as_str()),
            None => None,
        }
    }

    /// The format an extension (without the dot) stands for.
    pub fn from_extension_text(e: &str) -> (r: Option<Format>)
        ensures
            r == format_of_extension(Some(e@)),
    {
        let c = chars_of(e);
        if eq_str(&c, "json") {
            Some(Format::Json)
        } else if eq_str(&c, "md") || eq_str(&c, "markdown") {
            Some(Format::Markdown)
        } else if eq_str(&c, "txt") {
            Some(Format::Text)
        } else {
            None
        }
    }
}

/// Cells of a bar for `value` out of `max` over `width` cells: the ratio
/// rounded to the nearest cell (halves up), at least one and at most
/// `width`; none when any of the three is zero.
pub open spec fn bar_cells(value: nat, max: nat, width: nat) -> nat {
    if max == 0 || value == 0 || width == 0 {
        0
    } else if value >= max {
        width
    } else {
        let c = (2 * value * width + max) / (2 * max);
        if c < 1 {
            1
        } else if c > width {
            width
        } else {
            c
        }
    }
}

/// A horizontal bar of `#` cells proportional to `value / max`.
pub fn bar(value: u64, max: u64, width: usize) -> (r: String)
    ensures
        r@ == Seq::new(bar_cells(value as nat, max as nat, width as nat), |i: int| '#'),
{
    let cells: usize = if max == 0 || value == 0 || width == 0 {
        0
    } else if value >= max {
        width
    } else {
        assert(value * width <= 0xffff_ffff_ffff_ffffu64 * 0xffff_ffff_ffff_ffffu64) by (nonlinear_arith)
            requires
                value <= 0xffff_ffff_ffff_ffffu64,
                width <= 0xffff_ffff_ffff_ffffu64,
        ;
        let num: u128 = (value as u128) * (width as u128);
        let q: u128 = num / (max as u128);
        let rem: u128 = num % (max as u128);
        assert(q <= width) by (nonlinear_arith)
            requires
                q == num / (max as u128),
                num == value * width,
                value < max,
                max > 0,
        ;
        let c: u128 = if 2 * rem >= max as u128 { q + 1 } else { q };
        proof {
            assert(num == value * width);
            assert(num == q * max + rem) by (nonlinear_arith)
                requires
                    q == num / (max as u128),
                    rem == num % (max as u128),
                    max > 0,
            ;
            assert(q <= width) by (nonlinear_arith)
                requires
                    q * max + rem == value * width,
                    value < max,
                    rem >= 0,
                    max > 0,
            ;
            assert(c == (2 * value * width + max) / (2 * max)) by (nonlinear_arith)
                requires
                    num == value * width,
                    num == q * max + rem,
                    0 <= rem < max,
                    c == (if 2 * rem >= max { q + 1 } else { q as int }),
                    max > 0,
            ;
        }
        if c < 1 {
            1
        } else if c > width as u128 {
            width
        } else {
            c as usize
        }
    };
    let mut out = String::new();
    let mut i: usize = 0;
    while i < cells
        invariant
            i <= cells,
            out@ == Seq::new(i as nat, |k: int| '#'),
        decreases cells - i,
    {
        push_char(&mut out, '#');
        i += 1;
        assert(out@ =~= Seq::new(i as nat, |k: int| '#'));
    }
    assert(out@ =~= Seq::new(cells as nat, |k: int| '#'));
    out
}

/// The listing of suggestion number `n` (counted from one).
pub open spec fn suggestion_lines(n: nat, s: Suggestion) -> Seq<char> {
    "  "@ + decimal(n) + ". ["@ + severity_upper(s.severity) + "] "@ + s.id@ + " "@ + s.title@
        + " ("@ + basis_name(s.basis) + ")\n"@ + "     evidence: "@ + s.evidence@ + "\n"@
        + "     fix:      "@ + s.recommendation@ + "\n"@ + match s.estimated_savings_stroops {
        Some(v) => "     saves:    ~"@ + decimal(v as nat) + " stroops\n"@,
        None => Seq::empty(),
    }
}

/// The listings of the first suggestions of `s`, numbered from one.
pub open spec fn suggestions_listing(s: Seq<Suggestion>) -> Seq<char>
    decreases s.len(),
{
    if s.len() == 0 {
        Seq::empty()
    } else {
        suggestions_listing(s.drop_last()) + suggestion_lines(s.len(), s.last())
    }
}

/// Appends the listing of one suggestion.
fn push_suggestion(out: &mut String, n: u64, s: &Suggestion)
    ensures
        final(out)@ == old(out)@ + suggestion_lines(n as nat, *s),
{
    push_str(out, "  ");
    push_str(out, decimal_string(n).as_str());
    push_str(out, ". [");
    push_str(out, s.severity.upper_label());
    push_str(out, "] ");
    push_str(out, s.id.as_str());
    push_str(out, " ");
    push_str(out, s.title.as_str());
    push_str(out, " (");
    push_str(out, s.basis.label());
    push_str(out, ")\n");
    push_str(out, "     evidence: ");
    push_str(out, s.evidence.as_str());
    push_str(out, "\n");
    push_str(out, "     fix:      ");
    push_str(out, s.recommendation.as_str());
    push_str(out, "\n");
    match s.estimated_savings_stroops {
        Some(v) => {
            push_str(out, "     saves:    ~");
            push_str(out, decimal_string(v).as_str());
            push_str(out, " stroops\n");
        },
        None => {},
    }
}

/// The suggestions alone, numbered, or a note that there are none.
pub fn render_suggestions_text(suggestions: &[Suggestion]) -> (r: String)
    ensures
        r@ == (if suggestions@.len() == 0 {
            "  No optimization suggestions.\n"@
        } else {
            suggestions_listing(suggestions@)
        }),
{
    if suggestions.len() == 0 {
        return to_owned_string("  No optimization suggestions.\n");
    }
    let mut out = String::new();
    let mut i: usize = 0;
    while i < suggestions.len()
        invariant
            i <= suggestions@.len(),
            out@ == suggestions_listing(suggestions@.take(i as int)),
        decreases suggestions@.len() - i,
    {
        assert(suggestions@.take(i + 1).drop_last() =~= suggestions@.take(i as int));
        push_suggestion(&mut out, (i + 1) as u64, &suggestions[i]);
        i += 1;
    }
    assert(suggestions@.take(i as int) =~= suggestions@);
    out
}

} // verus!
