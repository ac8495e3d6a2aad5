//! The human-readable resource and fee report of a simulation, as lines
//! for the terminal to print.

use vstd::prelude::*;
use crate::simulation_resources::{ResourceFeePlan, SimulationResources};
use crate::text::{decimal, decimal_string, format_thousands, push_char, push_str, string_views, thousands, to_owned_string};

verus! {

/// One line of a rendered report.
#[derive(Debug, Clone, PartialEq, Eq)]
pub enum ReportLine {
    /// A section title.
    Header(String),
    /// A horizontal rule.
    Separator,
    /// A labelled value.
    Field(String, String),
    /// A labelled value to highlight.
    Accent(String, String),
    /// A warning.
    Warning(String),
}

/// A report line as plain values: kind (0 header, 1 separator, 2 field,
/// 3 highlighted field, 4 warning), label and value.
pub type LineView = (int, Seq<char>, Seq<char>);

pub open spec fn line_view(l: ReportLine) -> LineView {
    match l {
        ReportLine::Header(t) => (0, t@, Seq::empty()),
        ReportLine::Separator => (1, Seq::empty(), Seq::empty()),
        ReportLine::Field(k, v) => (2, k@, v@),
        ReportLine::Accent(k, v) => (3, k@, v@),
        ReportLine::Warning(w) => (4, w@, Seq::empty()),
    }
}

pub open spec fn line_views(ls: Seq<ReportLine>) -> Seq<LineView> {
    ls.map_values(|l: ReportLine| line_view(l))
}

/// Stroops per lumen.
pub const STROOPS_PER_LUMEN: u64 = 10_000_000;

/// `d` left-padded with zeros to seven digits.
pub open spec fn pad7(d: Seq<char>) -> Seq<char> {
    Seq::new((if d.len() < 7 { 7 - d.len() } else { 0 }) as nat, |i: int| '0') + d
}

/// An amount of stroops in lumens with seven decimals.
pub open spec fn lumens(stroops: nat) -> Seq<char> {
    decimal(stroops / 10_000_000) + "."@ + pad7(decimal(stroops % 10_000_000))
}

/// An amount of stroops in lumens with seven decimals.
fn lumens_text(stroops: u64) -> (r: String)
    ensures
        r@ == lumens(stroops as nat),
{
    let whole = stroops / STROOPS_PER_LUMEN;
    let frac = decimal_string(stroops % STROOPS_PER_LUMEN);
    let mut r = decimal_string(whole);
    push_str(&mut r, ".");
    let n = frac.unicode_len();
    let ghost before = r@;
    let mut k: usize = n;
    while k < 7
        invariant
            n <= k <= 7 || (n >= 7 && k == n),
            n == frac@.len(),
            r@ == before + Seq::new((k - n) as nat, |i: int| '0'),
        decreases 7 - k,
    {
        push_char(&mut r, '0');
        k += 1;
        assert(r@ =~= before + Seq::new((k - n) as nat, |i: int| '0'));
    }
    push_str(&mut r, frac.as_str());
    assert(r@ =~= lumens(stroops as nat));
    r
}

/// `N stroops`, with thousands separators.
pub open spec fn stroops_text(n: nat) -> Seq<char> {
    thousands(decimal(n)) + " stroops"@
}

/// The lines of the footprint section.
pub open spec fn footprint_lines(r: SimulationResources) -> Seq<LineView> {
    match r.footprint {
        Some(fp) => seq![
            (
                2,
                "Footprint entries"@,
                decimal((fp.read_only_entries + fp.read_write_entries) as nat) + " total ("@ + decimal(
                    fp.read_only_entries as nat,
                ) + " read-only, "@ + decimal(fp.read_write_entries as nat) + " read-write)"@,
            ),
            (2, "Ledger read bytes"@, thousands(decimal(fp.read_bytes as nat))),
            (2, "Ledger write bytes"@, thousands(decimal(fp.write_bytes as nat))),
        ],
        None => seq![(2, "Footprint"@, "unavailable (no transactionData)"@)],
    }
}

/// A measured quantity with separators, or `not reported`.
pub open spec fn reported_text(o: Option<u64>) -> Seq<char> {
    match o {
        Some(v) => thousands(decimal(v as nat)),
        None => "not reported"@,
    }
}

/// The report: resources, footprint, the fee plan and the warnings.
pub open spec fn report_spec(r: SimulationResources, plan: ResourceFeePlan) -> Seq<LineView> {
    seq![
        (0, "Simulated Transaction Resources"@, Seq::empty()),
        (1, Seq::empty(), Seq::empty()),
        (2, "CPU instructions"@, reported_text(r.cpu_instructions)),
        (2, "Memory (bytes)"@, reported_text(r.memory_bytes)),
    ] + footprint_lines(r) + match r.latest_ledger {
        Some(l) => seq![(2, "Simulated at ledger"@, decimal(l as nat))],
        None => Seq::empty(),
    } + seq![
        (1, Seq::empty(), Seq::empty()),
        (
            2,
            "Min resource fee"@,
            stroops_text(plan.min_resource_fee_stroops as nat) + " ("@ + lumens(
                r.min_resource_fee_stroops as nat,
            ) + " XLM)"@,
        ),
    ] + (if plan.restore_fee_stroops > 0 {
        seq![(2, "Restore fee"@, stroops_text(plan.restore_fee_stroops as nat))]
    } else {
        Seq::empty()
    }) + seq![
        (2, "Safety margin ("@ + decimal(plan.margin_percent as nat) + "%)"@, stroops_text(plan.margin_stroops as nat)),
        (2, "Inclusion fee"@, stroops_text(plan.inclusion_fee_stroops as nat)),
        (
            3,
            "Recommended fee"@,
            stroops_text(plan.recommended_fee_stroops as nat) + " ("@ + lumens(plan.recommended_fee_stroops as nat)
                + " XLM)"@,
        ),
        (1, Seq::empty(), Seq::empty()),
    ] + string_views(r.warnings@).map_values(|w: Seq<char>| (4, w, Seq::<char>::empty()))
}

fn push_line(out: &mut Vec<ReportLine>, l: ReportLine)
    ensures
        line_views(final(out)@) == line_views(old(out)@).push(line_view(l)),
{
    let ghost before = out@;
    out.push(l);
    assert(line_views(out@) =~= line_views(before).push(line_view(l)));
}

fn field(k: &str, v: String) -> (r: ReportLine)
    ensures
        line_view(r) == (2int, k@, v@),
{
    ReportLine::Field(to_owned_string(k), v)
}

fn stroops(n: u64) -> (r: String)
    ensures
        r@ == stroops_text(n as nat),
{
    let mut s = format_thousands(n);
    push_str(&mut s, " stroops");
    s
}

fn reported(o: Option<u64>) -> (r: String)
    ensures
        r@ == reported_text(o),
{
    match o {
        Some(v) => format_thousands(v),
        None => to_owned_string("not reported"),
    }
}

/// The human-readable resource and fee report of a simulation and its fee
/// plan: CPU and memory, the footprint, the ledger, each fee (with lumens
/// for the minimum and the recommended fee) and the warnings.
pub fn render_report(resources: &SimulationResources, plan: &ResourceFeePlan) -> (r: Vec<ReportLine>)
    requires
        match resources.footprint {
            Some(fp) => fp.read_only_entries + fp.read_write_entries <= usize::MAX,
            None => true,
        },
    ensures
        line_views(r@) == report_spec(*resources, *plan),
{
    let mut out: Vec<ReportLine> = Vec::new();
    assert(line_views(out@) =~= Seq::<LineView>::empty());
    push_line(&mut out, ReportLine::Header(to_owned_string("Simulated Transaction Resources")));
    push_line(&mut out, ReportLine::Separator);
    push_line(&mut out, field("CPU instructions", reported(resources.cpu_instructions)));
    push_line(&mut out, field("Memory (bytes)", reported(resources.memory_bytes)));
    let ghost head = line_views(out@);
    match &resources.footprint {
        Some(fp) => {
            let mut e = decimal_string(fp.total_entries() as u64);
            push_str(&mut e, " total (");
            push_str(&mut e, decimal_string(fp.read_only_entries as u64).as_str());
            push_str(&mut e, " read-only, ");
            push_str(&mut e, decimal_string(fp.read_write_entries as u64).as_str());
            push_str(&mut e, " read-write)");
            push_line(&mut out, field("Footprint entries", e));
            push_line(&mut out, field("Ledger read bytes", format_thousands(fp.read_bytes as u64)));
            push_line(&mut out, field("Ledger write bytes", format_thousands(fp.write_bytes as u64)));
        },
        None => {
            push_line(&mut out, field("Footprint", to_owned_string("unavailable (no transactionData)")));
        },
    }
    assert(line_views(out@) =~= head + footprint_lines(*resources));
    match resources.latest_ledger {
        Some(l) => {
            push_line(&mut out, field("Simulated at ledger", decimal_string(l as u64)));
        },
        None => {},
    }
    let ghost mid = line_views(out@);
    push_line(&mut out, ReportLine::Separator);
    let mut min = stroops(plan.min_resource_fee_stroops);
    push_str(&mut min, " (");
    push_str(&mut min, lumens_text(resources.min_resource_fee_stroops).as_str());
    push_str(&mut min, " XLM)");
    push_line(&mut out, field("Min resource fee", min));
    if plan.restore_fee_stroops > 0 {
        push_line(&mut out, field("Restore fee", stroops(plan.restore_fee_stroops)));
    }
    let mut label = to_owned_string("Safety margin (");
    push_str(&mut label, decimal_string(plan.margin_percent as u64).as_str());
    push_str(&mut label, "%)");
    push_line(&mut out, ReportLine::Field(label, stroops(plan.margin_stroops)));
    push_line(&mut out, field("Inclusion fee", stroops(plan.inclusion_fee_stroops)));
    let mut rec = stroops(plan.recommended_fee_stroops);
    push_str(&mut rec, " (");
    push_str(&mut rec, lumens_text(plan.recommended_fee_stroops).as_str());
    push_str(&mut rec, " XLM)");
    push_line(&mut out, ReportLine::Accent(to_owned_string("Recommended fee"), rec));
    push_line(&mut out, ReportLine::Separator);
    let ghost body = line_views(out@);
    let ghost ws = string_views(resources.warnings@).map_values(|w: Seq<char>| (4int, w, Seq::<char>::empty()));
    let mut i: usize = 0;
    while i < resources.warnings.len()
        invariant
            i <= resources.warnings@.len(),
            ws == string_views(resources.warnings@).map_values(|w: Seq<char>| (4int, w, Seq::<char>::empty())),
            line_views(out@) == body + ws.take(i as int),
        decreases resources.warnings@.len() - i,
    {
        push_line(&mut out, ReportLine::Warning(resources.warnings[i].clone()));
        i += 1;
        assert(line_views(out@) =~= body + ws.take(i as int));
    }
    assert(ws.take(i as int) =~= ws);
    assert(line_views(out@) =~= report_spec(*resources, *plan));
    out
}

} // verus!
