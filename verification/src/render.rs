//! The report renderer: assembles every section into one fixed-format text.
//!
//! The whole report is specified as a function of the outcome sequence and
//! the total duration alone (`report_chars`), and the renderer is proved to
//! return exactly that text, so the output is deterministic by construction.

use crate::bytesize::byte_display;
use crate::bytesize::format_bytes;
use crate::distribution::error_distribution;
use crate::distribution::error_table;
use crate::distribution::status_distribution;
use crate::distribution::status_table;
use crate::distribution::str_pair_views;
use crate::distribution::str_views;
use crate::distribution::sum_counts16;
use crate::distribution::sum_counts_str;
use crate::histogram::bar_fill;
use crate::histogram::bar_fill_exec;
use crate::histogram::bin_lower;
use crate::histogram::bin_lower_bounds;
use crate::histogram::build_counts;
use crate::histogram::count_in_bin;
use crate::histogram::counts_max_exec;
use crate::histogram::lemma_counts_max_eq;
use crate::histogram::max_count_upto;
use crate::percentile::pct_value;
use crate::percentile::pct_value_exec;
use crate::sortseq::sort_durations;
use crate::sortseq::sort_seq;
use crate::stats::bps_clamped;
use crate::stats::bytes_per_sec_exec;
use crate::stats::collect_durations;
use crate::stats::collect_errors;
use crate::stats::collect_statuses;
use crate::stats::count_successes;
use crate::stats::failure_errors;
use crate::stats::lemma_mean_ge_min;
use crate::stats::lemma_outcome_partition;
use crate::stats::max_duration;
use crate::stats::mean_duration;
use crate::stats::mean_ns;
use crate::stats::min_duration;
use crate::stats::rate_units;
use crate::stats::rate_units_exec;
use crate::stats::rps_units;
use crate::stats::rps_units_exec;
use crate::stats::seq_max;
use crate::stats::seq_min;
use crate::stats::success_count;
use crate::stats::success_durations;
use crate::stats::success_statuses;
use crate::stats::sum_success_bytes;
use crate::stats::total_bytes;
use crate::stats::Outcome;
use crate::textfmt::dec_chars;
use crate::textfmt::dec_string;
use crate::textfmt::fixed4_chars;
use crate::textfmt::fixed4_string;
use crate::textfmt::secs3_chars;
use crate::textfmt::secs3_string;
use crate::textfmt::secs4_chars;
use crate::textfmt::secs4_string;
use vstd::prelude::*;
use vstd::string::StringExecFns;

verus! {

/// The clipped top of the visible histogram range: the raw maximum, capped
/// at three times the mean so one outlier cannot flatten the other bins.
pub open spec fn clipped_max(ds: Seq<u64>) -> nat
    recommends
        ds.len() > 0,
{
    if 3 * mean_ns(ds) < seq_max(ds) {
        3 * mean_ns(ds)
    } else {
        seq_max(ds) as nat
    }
}

/// The summary section, from the success-rate line to the size lines.
pub open spec fn summary_chars(rs: Seq<Outcome>, tn: u64) -> Seq<char> {
    let len = rs.len();
    let succ = success_count(rs);
    let ds = success_durations(rs);
    let tb = total_bytes(rs);
    "Summary:\n"@ + "  Success rate:\t"@ + (if len == 0 {
        "NaN"@
    } else {
        fixed4_chars(rate_units(succ, len))
    }) + "\n"@ + "  Total:\t"@ + secs4_chars(tn as nat) + " secs\n"@ + "  Slowest:\t"@ + (if ds.len()
        == 0 {
        "NaN"@
    } else {
        secs4_chars(seq_max(ds) as nat)
    }) + " secs\n"@ + "  Fastest:\t"@ + (if ds.len() == 0 {
        "NaN"@
    } else {
        secs4_chars(seq_min(ds) as nat)
    }) + " secs\n"@ + "  Average:\t"@ + (if ds.len() == 0 {
        "NaN"@
    } else {
        secs4_chars(mean_ns(ds))
    }) + " secs\n"@ + "  Requests/sec:\t"@ + fixed4_chars(rps_units(len, tn as nat)) + "\n"@
        + "\n"@ + "  Total data:\t"@ + byte_display(tb) + "\n"@ + "  Size/request:\t"@ + (if succ
        == 0 {
        "NaN"@
    } else {
        byte_display(tb / succ)
    }) + "\n"@ + "  Size/sec:\t"@ + byte_display(bps_clamped(tb, tn as nat)) + "\n"@
}

/// A run of `k` filled bar cells.
pub open spec fn bar_chars(k: nat) -> Seq<char>
    decreases k,
{
    if k == 0 {
        Seq::empty()
    } else {
        bar_chars((k - 1) as nat) + "■"@
    }
}

/// One histogram line: lower bound, count, and proportional bar.
pub open spec fn hist_line_chars(lo: u64, w: u64, m: nat, i: int, c: nat) -> Seq<char> {
    "  "@ + secs3_chars(bin_lower(lo, w, i) as nat) + " ["@ + dec_chars(c) + "]\t|"@ + bar_chars(
        bar_fill(c, m),
    ) + "\n"@
}

/// The histogram lines of the bins below `jj`.
pub open spec fn hist_lines_chars(ds: Seq<u64>, lo: u64, w: u64, m: nat, jj: int) -> Seq<char>
    decreases jj,
{
    if jj <= 0 {
        Seq::empty()
    } else {
        hist_lines_chars(ds, lo, w, m, jj - 1) + hist_line_chars(
            lo,
            w,
            m,
            jj - 1,
            count_in_bin(ds, lo, w, jj - 1),
        )
    }
}

/// The whole histogram section body: 11 lines, or nothing for no samples.
pub open spec fn hist_chars(ds: Seq<u64>) -> Seq<char> {
    if ds.len() == 0 {
        Seq::empty()
    } else {
        let lo = seq_min(ds);
        let w = (clipped_max(ds) - lo) as u64;
        hist_lines_chars(ds, lo, w, max_count_upto(ds, lo, w, 11), 11)
    }
}

/// One latency line: the percentile level and its value, or the sentinel.
pub open spec fn pct_line_chars(ss: Seq<u64>, p: nat) -> Seq<char> {
    "  "@ + dec_chars(p) + "% in "@ + (match pct_value(ss, p) {
        Option::Some(v) => secs4_chars(v as nat),
        Option::None => "NaN"@,
    }) + " secs\n"@
}

/// The latency section body: the seven fixed percentile levels.
pub open spec fn lat_chars(ss: Seq<u64>) -> Seq<char> {
    pct_line_chars(ss, 10) + pct_line_chars(ss, 25) + pct_line_chars(ss, 50) + pct_line_chars(
        ss,
        75,
    ) + pct_line_chars(ss, 90) + pct_line_chars(ss, 95) + pct_line_chars(ss, 99)
}

/// One status line: `  [code] count responses`.
pub open spec fn status_line_chars(e: (u16, u64)) -> Seq<char> {
    "  ["@ + dec_chars(e.0 as nat) + "] "@ + dec_chars(e.1 as nat) + " responses\n"@
}

/// The status section body, one line per table entry, in table order.
pub open spec fn status_lines_chars(t: Seq<(u16, u64)>) -> Seq<char>
    decreases t.len(),
{
    if t.len() == 0 {
        Seq::empty()
    } else {
        status_lines_chars(t.drop_last()) + status_line_chars(t.last())
    }
}

/// One error line: `  [count] text`.
pub open spec fn err_line_chars(e: (Seq<char>, u64)) -> Seq<char> {
    "  ["@ + dec_chars(e.1 as nat) + "] "@ + e.0 + "\n"@
}

/// The error lines, one per table entry, in table order.
pub open spec fn err_lines_chars(t: Seq<(Seq<char>, u64)>) -> Seq<char>
    decreases t.len(),
{
    if t.len() == 0 {
        Seq::empty()
    } else {
        err_lines_chars(t.drop_last()) + err_line_chars(t.last())
    }
}

/// The whole error section, omitted entirely when there are no failures.
pub open spec fn err_section_chars(errs: Seq<Seq<char>>) -> Seq<char> {
    if errs.len() == 0 {
        Seq::empty()
    } else {
        "\nError distribution:\n"@ + err_lines_chars(error_table(errs))
    }
}

/// The complete report text for an outcome sequence and a total duration.
pub open spec fn report_chars(rs: Seq<Outcome>, tn: u64) -> Seq<char> {
    let ds = success_durations(rs);
    summary_chars(rs, tn) + "\n"@ + "Response time histogram:\n"@ + hist_chars(ds) + "\n"@
        + "Latency distribution:\n"@ + lat_chars(sort_seq(ds)) + "\n"@
        + "Status code distribution:\n"@ + status_lines_chars(
        status_table(success_statuses(rs)),
    ) + err_section_chars(str_views(failure_errors(rs)))
}

/// Renders the summary section.
fn summary_section(results: &Vec<Outcome>, total_ns: u64) -> (r: String)
    requires
        total_ns > 0,
    ensures
        r@ == summary_chars(results@, total_ns),
{
    let succ = count_successes(results);
    let ds = collect_durations(results);
    let tb = sum_success_bytes(results);
    let mut out = String::new();
    out.append("Summary:\n");
    out.append("  Success rate:\t");
    if results.len() == 0 {
        out.append("NaN");
    } else {
        let u = rate_units_exec(succ, results.len());
        let s = fixed4_string(u);
        out.append(s.as_str());
    }
    out.append("\n");
    out.append("  Total:\t");
    let s = secs4_string(total_ns);
    out.append(s.as_str());
    out.append(" secs\n");
    out.append("  Slowest:\t");
    if ds.len() == 0 {
        out.append("NaN");
    } else {
        let s = secs4_string(max_duration(&ds));
        out.append(s.as_str());
    }
    out.append(" secs\n");
    out.append("  Fastest:\t");
    if ds.len() == 0 {
        out.append("NaN");
    } else {
        let s = secs4_string(min_duration(&ds));
        out.append(s.as_str());
    }
    out.append(" secs\n");
    out.append("  Average:\t");
    if ds.len() == 0 {
        out.append("NaN");
    } else {
        let s = secs4_string(mean_duration(&ds));
        out.append(s.as_str());
    }
    out.append(" secs\n");
    out.append("  Requests/sec:\t");
    let s = fixed4_string(rps_units_exec(results.len(), total_ns));
    out.append(s.as_str());
    out.append("\n");
    out.append("\n");
    out.append("  Total data:\t");
    let s = format_bytes(tb);
    out.append(s.as_str());
    out.append("\n");
    out.append("  Size/request:\t");
    if succ == 0 {
        out.append("NaN");
    } else {
        let s = format_bytes(tb / succ as u128);
        out.append(s.as_str());
    }
    out.append("\n");
    out.append("  Size/sec:\t");
    let s = format_bytes(bytes_per_sec_exec(tb, total_ns));
    out.append(s.as_str());
    out.append("\n");
    proof {
        assert(out@ =~= summary_chars(results@, total_ns));
    }
    out
}

/// Renders `k` filled bar cells.
fn bar_string(k: usize) -> (r: String)
    ensures
        r@ == bar_chars(k as nat),
{
    let mut out = String::new();
    let mut i: usize = 0;
    while i < k
        invariant
            i <= k,
            out@ == bar_chars(i as nat),
        decreases k - i,
    {
        out.append("■");
        i += 1;
    }
    out
}

/// Renders the histogram section body.
fn histogram_section(ds: &Vec<u64>) -> (r: String)
    ensures
        r@ == hist_chars(ds@),
{
    if ds.len() == 0 {
        return String::new();
    }
    let lo = min_duration(ds);
    let mx = max_duration(ds);
    let mean = mean_duration(ds);
    proof {
        lemma_mean_ge_min(ds@);
    }
    let three_mean = 3u128 * mean as u128;
    let cmax: u64 = if three_mean < mx as u128 {
        three_mean as u64
    } else {
        mx
    };
    assert(cmax as nat == clipped_max(ds@));
    let w = cmax - lo;
    let counts = build_counts(ds, lo, w);
    let m = counts_max_exec(&counts);
    proof {
        lemma_counts_max_eq(counts@, ds@, lo, w, 11);
        assert(counts@.take(11) =~= counts@);
    }
    let lbs = bin_lower_bounds(lo, w);
    let mut out = String::new();
    let mut i: usize = 0;
    while i < 11
        invariant
            i <= 11,
            ds@.len() > 0,
            out@ == hist_lines_chars(ds@, lo, w, m as nat, i as int),
            counts@.len() == 11,
            lbs@.len() == 11,
            forall|j: int| 0 <= j < 11 ==> (#[trigger] counts@[j]) as nat == count_in_bin(
                ds@,
                lo,
                w,
                j,
            ),
            forall|j: int| 0 <= j < 11 ==> (#[trigger] lbs@[j]) as int == bin_lower(lo, w, j),
            forall|j: int| 0 <= j < counts@.len() ==> counts@[j] <= m,
            m as nat == max_count_upto(ds@, lo, w, 11),
        decreases 11 - i,
    {
        out.append("  ");
        let s = secs3_string(lbs[i]);
        out.append(s.as_str());
        out.append(" [");
        let s = dec_string(counts[i] as u128);
        out.append(s.as_str());
        out.append("]\t|");
        let fill = bar_fill_exec(counts[i], m);
        let s = bar_string(fill);
        out.append(s.as_str());
        out.append("\n");
        proof {
            assert(out@ =~= hist_lines_chars(ds@, lo, w, m as nat, i + 1));
        }
        i += 1;
    }
    out
}

/// Renders one latency line.
fn pct_line(ss: &Vec<u64>, p: u64) -> (r: String)
    requires
        p <= 100,
    ensures
        r@ == pct_line_chars(ss@, p as nat),
{
    let mut out = String::new();
    out.append("  ");
    let s = dec_string(p as u128);
    out.append(s.as_str());
    out.append("% in ");
    match pct_value_exec(ss, p) {
        Option::Some(v) => {
            let s = secs4_string(v);
            out.append(s.as_str());
        },
        Option::None => {
            out.append("NaN");
        },
    }
    out.append(" secs\n");
    proof {
        assert(out@ =~= pct_line_chars(ss@, p as nat));
    }
    out
}

/// Renders the latency section body over the ascending durations.
fn latency_section(ss: &Vec<u64>) -> (r: String)
    ensures
        r@ == lat_chars(ss@),
{
    let mut out = pct_line(ss, 10);
    let s = pct_line(ss, 25);
    out.append(s.as_str());
    let s = pct_line(ss, 50);
    out.append(s.as_str());
    let s = pct_line(ss, 75);
    out.append(s.as_str());
    let s = pct_line(ss, 90);
    out.append(s.as_str());
    let s = pct_line(ss, 95);
    out.append(s.as_str());
    let s = pct_line(ss, 99);
    out.append(s.as_str());
    proof {
        assert(out@ =~= lat_chars(ss@));
    }
    out
}

/// Renders the status section body from the display-ordered table.
fn status_section(t: &Vec<(u16, u64)>) -> (r: String)
    ensures
        r@ == status_lines_chars(t@),
{
    let mut out = String::new();
    let mut i: usize = 0;
    while i < t.len()
        invariant
            i <= t@.len(),
            out@ == status_lines_chars(t@.take(i as int)),
        decreases t@.len() - i,
    {
        proof {
            assert(t@.take(i + 1).drop_last() =~= t@.take(i as int));
            assert(t@.take(i + 1).last() == t@[i as int]);
        }
        out.append("  [");
        let s = dec_string(t[i].0 as u128);
        out.append(s.as_str());
        out.append("] ");
        let s = dec_string(t[i].1 as u128);
        out.append(s.as_str());
        out.append(" responses\n");
        proof {
            assert(out@ =~= status_lines_chars(t@.take(i + 1)));
        }
        i += 1;
    }
    proof {
        assert(t@.take(t@.len() as int) =~= t@);
    }
    out
}

/// Renders the whole error section, or nothing when there are no failures.
fn error_section(errs: &Vec<String>) -> (r: String)
    ensures
        r@ == err_section_chars(str_views(errs@)),
{
    if errs.len() == 0 {
        proof {
            assert(str_views(errs@).len() == 0);
        }
        return String::new();
    }
    proof {
        assert(str_views(errs@).len() == errs@.len());
    }
    let t = error_distribution(errs);
    let ghost ts = str_pair_views(t@);
    let mut out = String::new();
    out.append("\nError distribution:\n");
    let mut i: usize = 0;
    while i < t.len()
        invariant
            i <= t@.len(),
            ts == str_pair_views(t@),
            ts.len() == t@.len(),
            out@ == "\nError distribution:\n"@ + err_lines_chars(ts.take(i as int)),
        decreases t@.len() - i,
    {
        proof {
            assert(ts.take(i + 1).drop_last() =~= ts.take(i as int));
            assert(ts.take(i + 1).last() == ts[i as int]);
            assert(ts[i as int] == (t@[i as int].0@, t@[i as int].1));
        }
        out.append("  [");
        let s = dec_string(t[i].1 as u128);
        out.append(s.as_str());
        out.append("] ");
        let p = &t[i];
        out.append(p.0.as_str());
        out.append("\n");
        proof {
            assert(out@ =~= "\nError distribution:\n"@ + err_lines_chars(ts.take(i + 1)));
        }
        i += 1;
    }
    proof {
        assert(ts.take(t@.len() as int) =~= ts);
    }
    out
}

/// Renders the complete report for a finished run.
///
/// `results` is the full outcome collection, in completion order, and
/// `total_ns` the total wall-clock duration of the run in nanoseconds
/// (positive). The returned text is exactly `report_chars` of the input.
pub fn render_report(results: &Vec<Outcome>, total_ns: u64) -> (r: String)
    requires
        total_ns > 0,
    ensures
        r@ == report_chars(results@, total_ns),
{
    let ds = collect_durations(results);
    let mut out = summary_section(results, total_ns);
    out.append("\n");
    out.append("Response time histogram:\n");
    let s = histogram_section(&ds);
    out.append(s.as_str());
    out.append("\n");
    out.append("Latency distribution:\n");
    let ss = sort_durations(&ds);
    let s = latency_section(&ss);
    out.append(s.as_str());
    out.append("\n");
    out.append("Status code distribution:\n");
    let keys = collect_statuses(results);
    let t = status_distribution(&keys);
    let s = status_section(&t);
    out.append(s.as_str());
    let errs = collect_errors(results);
    let s = error_section(&errs);
    out.append(s.as_str());
    proof {
        assert(out@ =~= report_chars(results@, total_ns));
    }
    out
}

/// The report text is a function of the outcome sequence and the total
/// duration alone: two renderings of the same input are identical.
pub proof fn lemma_render_deterministic(
    rs: Seq<Outcome>,
    tn: u64,
    r1: Seq<char>,
    r2: Seq<char>,
)
    requires
        r1 == report_chars(rs, tn),
        r2 == report_chars(rs, tn),
    ensures
        r1 == r2,
{
}

/// Distribution counts sum to the size of the class they tabulate: status
/// counts to the number of successes, error counts to the number of failures.
pub proof fn lemma_distribution_totals(rs: Seq<Outcome>)
    requires
        rs.len() <= u64::MAX,
    ensures
        sum_counts16(status_table(success_statuses(rs))) == success_count(rs),
        sum_counts_str(error_table(str_views(failure_errors(rs)))) == rs.len() - success_count(
            rs,
        ),
{
    lemma_outcome_partition(rs);
    crate::distribution::lemma_status_table(success_statuses(rs));
    assert(str_views(failure_errors(rs)).len() == failure_errors(rs).len());
    crate::distribution::lemma_error_table(str_views(failure_errors(rs)));
}

/// Histogram bin counts sum to the number of successful outcomes: every
/// successful duration falls in exactly one of the 11 bins.
pub proof fn lemma_histogram_covers_successes(rs: Seq<Outcome>, lo: u64, w: u64)
    ensures
        crate::histogram::counts_total(success_durations(rs), lo, w, 11) == success_count(rs),
{
    lemma_outcome_partition(rs);
    crate::histogram::lemma_histogram_total(success_durations(rs), lo, w);
}

} // verus!
