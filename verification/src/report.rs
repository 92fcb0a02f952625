//! Rendering an append outcome for a human.
//!
//! Nothing in this tool refuses a snapshot on the grounds that it looks drastic,
//! so this report is the whole detection mechanism. It always states how scope
//! membership moved, even when it did not, and it names the stations that left.

use vstd::prelude::*;

use crate::append::{scopes_in_order, AppendReport, ScopeSummary};
use crate::input::{Warning, WarningV};
use crate::model::Scope;
use crate::text::{nat_text, push_char, usize_text};

verus! {

/// Width of the label column, chosen so the longest label still leaves a gap.
pub const LABEL_WIDTH: usize = 24;

/// Width of the figure column, so every figure lines up.
pub const VALUE_WIDTH: usize = 6;

/// How many departed codes the summary names before summarizing.
pub const MAX_LISTED_DEPARTURES: usize = 10;

/// `n` spaces.
pub open spec fn spaces(n: nat) -> Seq<char> {
    Seq::new(n, |i: int| ' ')
}

/// `s` followed by spaces up to `width` characters, as `{:<width}` writes it.
pub open spec fn pad_right(s: Seq<char>, width: nat) -> Seq<char> {
    if s.len() >= width {
        s
    } else {
        s + spaces((width - s.len()) as nat)
    }
}

/// `s` after spaces up to `width` characters, as `{:>width}` writes it.
pub open spec fn pad_left(s: Seq<char>, width: nat) -> Seq<char> {
    if s.len() >= width {
        s
    } else {
        spaces((width - s.len()) as nat) + s
    }
}

/// One line of figures: the label and its colon in the label column, the
/// figure right-aligned after it.
pub open spec fn row_line(label: Seq<char>, figure: Seq<char>) -> Seq<char> {
    "  "@ + pad_right(label + ":"@, LABEL_WIDTH as nat) + pad_left(figure, VALUE_WIDTH as nat)
        + "\n"@
}

/// A signed figure: a bare zero, or the value with its sign.
pub open spec fn signed_text(v: int) -> Seq<char> {
    if v == 0 {
        "0"@
    } else if v > 0 {
        "+"@ + nat_text(v as nat)
    } else {
        "-"@ + nat_text((-v) as nat)
    }
}

/// The lines naming the first `upto` departed codes.
pub open spec fn departed_lines(codes: Seq<Seq<char>>, upto: int) -> Seq<char>
    decreases upto,
{
    if upto <= 0 {
        Seq::empty()
    } else {
        departed_lines(codes, upto - 1) + "    "@ + codes[upto - 1] + "\n"@
    }
}

/// The departures: at most ten codes by name, then how many more there are.
pub open spec fn departures_text(codes: Seq<Seq<char>>) -> Seq<char> {
    if codes.len() > MAX_LISTED_DEPARTURES {
        departed_lines(codes, MAX_LISTED_DEPARTURES as int) + "    ... and "@ + nat_text(
            (codes.len() - MAX_LISTED_DEPARTURES) as nat,
        ) + " more\n"@
    } else {
        departed_lines(codes, codes.len() as int)
    }
}

/// The codes a summary names as departed.
pub open spec fn departed_codes(s: ScopeSummary) -> Seq<Seq<char>> {
    s.departed@.map_values(|c: String| c@)
}

/// The block for one scope: signed movement in each direction, then the
/// departures.
pub open spec fn scope_block(scope: Scope, s: ScopeSummary) -> Seq<char> {
    "\nScope ("@ + scope.spec_str() + "):\n"@ + row_line("enabled"@, signed_text(s.enabled as int))
        + row_line("disabled"@, signed_text(-(s.disabled as int))) + departures_text(
        departed_codes(s),
    )
}

/// The blocks of the first `upto` scopes.
pub open spec fn scope_blocks(scopes: Seq<(Scope, ScopeSummary)>, upto: int) -> Seq<char>
    decreases upto,
{
    if upto <= 0 {
        Seq::empty()
    } else {
        scope_blocks(scopes, upto - 1) + scope_block(scopes[upto - 1].0, scopes[upto - 1].1)
    }
}

/// The lines of the first `upto` warnings.
pub open spec fn warning_lines(warnings: Seq<WarningV>, upto: int) -> Seq<char>
    decreases upto,
{
    if upto <= 0 {
        Seq::empty()
    } else {
        warning_lines(warnings, upto - 1) + "  "@ + warnings[upto - 1].text() + "\n"@
    }
}

/// The whole summary.
pub open spec fn report_text(r: AppendReport) -> Seq<char> {
    let warnings = r.warnings@.map_values(|w: Warning| w@);
    "Release: "@ + r.release_id@ + "\n"@ + "Effective: "@ + r.effective_from@.rfc3339 + "\n"@
        + "Source: "@ + r.source_kind.spec_str() + "\n"@ + "\nStations:\n"@ + row_line(
        "existing"@,
        nat_text(r.stations_existing as nat),
    ) + row_line("appended"@, nat_text(r.stations_appended as nat)) + row_line(
        "total"@,
        nat_text(r.stations_total as nat),
    ) + "\nMetadata:\n"@ + row_line("unchanged"@, nat_text(r.metadata_unchanged as nat))
        + row_line("revised"@, nat_text(r.metadata_revised as nat)) + row_line(
        "unresolved (active)"@,
        nat_text(r.unresolved_active as nat),
    ) + match r.unresolved_in_scope {
        Some(n) => row_line("unresolved (in scope)"@, nat_text(n as nat)),
        None => Seq::empty(),
    } + "\nLifecycle:\n"@ + row_line("activated"@, nat_text(r.lifecycle_activated as nat))
        + row_line("deactivated"@, nat_text(r.lifecycle_deactivated as nat)) + scope_blocks(
        r.scopes@,
        r.scopes@.len() as int,
    ) + if warnings.len() > 0 {
        "\nWarnings:\n"@ + warning_lines(warnings, warnings.len() as int)
    } else {
        Seq::empty()
    }
}

fn push_spaces(out: &mut String, n: usize)
    ensures
        final(out)@ == old(out)@ + spaces(n as nat),
{
    let mut i: usize = 0;
    while i < n
        invariant
            i <= n,
            out@ == old(out)@ + spaces(i as nat),
        decreases n - i,
    {
        push_char(out, ' ');
        i = i + 1;
        assert(out@ =~= old(out)@ + spaces(i as nat));
    }
}

fn row(out: &mut String, label: &str, figure: &str)
    ensures
        final(out)@ == old(out)@ + row_line(label@, figure@),
{
    proof {
        reveal_strlit(":");
    }
    out.append("  ");
    let ghost start = out@;
    out.append(label);
    out.append(":");
    let ghost labelled = out@;
    assert(labelled =~= start + (label@ + ":"@));
    let label_len = label.unicode_len();
    if label_len < LABEL_WIDTH - 1 {
        push_spaces(out, LABEL_WIDTH - 1 - label_len);
    }
    assert(out@ =~= start + pad_right(label@ + ":"@, LABEL_WIDTH as nat));
    let ghost padded = out@;
    let figure_len = figure.unicode_len();
    if figure_len < VALUE_WIDTH {
        push_spaces(out, VALUE_WIDTH - figure_len);
    }
    out.append(figure);
    assert(out@ =~= padded + pad_left(figure@, VALUE_WIDTH as nat));
    out.append("\n");
    assert(out@ =~= old(out)@ + row_line(label@, figure@));
}

fn count_row(out: &mut String, label: &str, value: usize)
    ensures
        final(out)@ == old(out)@ + row_line(label@, nat_text(value as nat)),
{
    let figure = usize_text(value);
    row(out, label, figure.as_str());
}

fn signed_row(out: &mut String, label: &str, magnitude: usize, negative: bool)
    ensures
        final(out)@ == old(out)@ + row_line(
            label@,
            signed_text(
                if negative {
                    -(magnitude as int)
                } else {
                    magnitude as int
                },
            ),
        ),
{
    // "no movement" reads better as a bare zero than as a signed one.
    let figure = if magnitude == 0 {
        String::from_str("0")
    } else {
        let mut f = String::from_str(
            if negative {
                "-"
            } else {
                "+"
            },
        );
        f.append(usize_text(magnitude).as_str());
        f
    };
    row(out, label, figure.as_str());
}

fn scope_text(out: &mut String, scope: Scope, summary: &ScopeSummary)
    ensures
        final(out)@ == old(out)@ + scope_block(scope, *summary),
{
    let ghost start = out@;
    out.append("\nScope (");
    out.append(scope.as_str());
    out.append("):\n");
    signed_row(out, "enabled", summary.enabled, false);
    signed_row(out, "disabled", summary.disabled, true);
    let ghost codes = departed_codes(*summary);
    let ghost head = out@;
    let n = summary.departed.len();
    let listed = if n > MAX_LISTED_DEPARTURES {
        MAX_LISTED_DEPARTURES
    } else {
        n
    };
    let mut i: usize = 0;
    while i < listed
        invariant
            i <= listed <= n,
            n == summary.departed@.len(),
            codes == departed_codes(*summary),
            out@ == head + departed_lines(codes, i as int),
        decreases listed - i,
    {
        out.append("    ");
        out.append(summary.departed[i].as_str());
        out.append("\n");
        i = i + 1;
        assert(out@ =~= head + departed_lines(codes, i as int));
    }
    if n > MAX_LISTED_DEPARTURES {
        out.append("    ... and ");
        out.append(usize_text(n - MAX_LISTED_DEPARTURES).as_str());
        out.append(" more\n");
    }
    assert(out@ =~= start + scope_block(scope, *summary));
}

/// The summary of a release, for the operator: identity, table movement,
/// metadata and lifecycle counts, every scope's movement with its departures
/// (at most ten named), and the warnings. The scopes are written in the
/// order the report holds them, which must be scope order, each at most once
/// (see [`AppendReport::scopes_ordered`]); every report
/// [`crate::append::append`] makes has them so.
pub fn to_text(report: &AppendReport) -> (s: String)
    requires
        scopes_in_order(report.scopes@),
    ensures
        s@ == report_text(*report),
{
    let ghost warnings = report.warnings@.map_values(|w: Warning| w@);
    let mut out = String::from_str("Release: ");
    out.append(report.release_id.as_str());
    out.append("\n");
    out.append("Effective: ");
    out.append(report.effective_from.rfc3339.as_str());
    out.append("\n");
    out.append("Source: ");
    out.append(report.source_kind.as_str());
    out.append("\n");
    out.append("\nStations:\n");
    count_row(&mut out, "existing", report.stations_existing);
    count_row(&mut out, "appended", report.stations_appended);
    count_row(&mut out, "total", report.stations_total);
    out.append("\nMetadata:\n");
    count_row(&mut out, "unchanged", report.metadata_unchanged);
    count_row(&mut out, "revised", report.metadata_revised);
    count_row(&mut out, "unresolved (active)", report.unresolved_active);
    match report.unresolved_in_scope {
        Some(n) => count_row(&mut out, "unresolved (in scope)", n),
        None => {},
    }
    out.append("\nLifecycle:\n");
    count_row(&mut out, "activated", report.lifecycle_activated);
    count_row(&mut out, "deactivated", report.lifecycle_deactivated);
    let ghost head = out@;
    let mut k: usize = 0;
    while k < report.scopes.len()
        invariant
            k <= report.scopes@.len(),
            out@ == head + scope_blocks(report.scopes@, k as int),
        decreases report.scopes@.len() - k,
    {
        scope_text(&mut out, report.scopes[k].0, &report.scopes[k].1);
        k = k + 1;
        assert(out@ =~= head + scope_blocks(report.scopes@, k as int));
    }
    let ghost middle = out@;
    if report.warnings.len() > 0 {
        out.append("\nWarnings:\n");
        let ghost top = out@;
        let mut k: usize = 0;
        while k < report.warnings.len()
            invariant
                k <= report.warnings@.len(),
                warnings == report.warnings@.map_values(|w: Warning| w@),
                out@ == top + warning_lines(warnings, k as int),
            decreases report.warnings@.len() - k,
        {
            out.append("  ");
            out.append(report.warnings[k].to_text().as_str());
            out.append("\n");
            k = k + 1;
            assert(out@ =~= top + warning_lines(warnings, k as int));
        }
    }
    assert(out@ =~= report_text(*report));
    out
}

} // verus!
