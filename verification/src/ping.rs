//! The text of the answer to the `ping` command.
use vstd::prelude::*;
use crate::text::{
    append_chars, append_str, decimal, join, join_chars, lines, push_decimal, push_signed_decimal,
    signed_decimal, split_lines, string_of, trim, trim_chars, views,
};

verus! {

/// One piece of a compact duration: the number followed by its unit, or
/// nothing when the number is zero.
pub open spec fn duration_piece(n: int, unit: Seq<char>) -> Seq<Seq<char>> {
    if n == 0 {
        seq![]
    } else {
        seq![decimal(n as nat) + unit]
    }
}

/// What `pretty_duration::pretty_duration` returns, with no options, for a
/// duration of `millis` milliseconds: the non-zero pieces among years, months,
/// days, hours, minutes, seconds and milliseconds, joined by spaces, or `0ms`
/// when all are zero. As that function computes them, the years, months and
/// days are whole counts of 31556926000, 2629800000 and 86400000 milliseconds,
/// cut down to 16, 8 and 8 bits; the others are the remainders of a clock.
pub open spec fn pretty_duration_text(millis: u64) -> Seq<char> {
    let ms = millis as int;
    let pieces = duration_piece((ms / 31556926000) % 65536, "y"@) + duration_piece(
        (ms / 2629800000) % 256,
        "mon"@,
    ) + duration_piece((ms / 86400000) % 256, "d"@) + duration_piece((ms / 3600000) % 24, "h"@)
        + duration_piece((ms / 60000) % 60, "m"@) + duration_piece((ms / 1000) % 60, "s"@)
        + duration_piece(ms % 1000, "ms"@);
    if pieces.len() == 0 {
        "0ms"@
    } else {
        join(pieces, " "@)
    }
}

/// Formats a duration by calling `pretty_duration::pretty_duration(&d, None)` on
/// `Duration::from_millis(millis)`. That function reads the duration only
/// through `as_millis`, splits it into the time units of `pretty_duration_text`
/// (casting each count to its field's width), writes the non-zero ones with the
/// compact labels and joins them with spaces, or gives `0ms`.
#[verifier::external_body]
fn pretty_duration_of(millis: u64) -> (r: String)
    ensures
        r@ == pretty_duration_text(millis),
{
    pretty_duration::pretty_duration(&std::time::Duration::from_millis(millis), None)
}

/// How the async runtime schedules tasks.
#[derive(Clone, Copy, Debug, PartialEq, Eq, Structural)]
pub enum RuntimeFlavor {
    CurrentThread,
    MultiThread,
    Other,
}

/// How a runtime flavor is displayed.
pub open spec fn flavor_name(f: RuntimeFlavor) -> Seq<char> {
    match f {
        RuntimeFlavor::CurrentThread => "Current Thread"@,
        RuntimeFlavor::MultiThread => "Multi Thread"@,
        RuntimeFlavor::Other => "Unknown"@,
    }
}

/// The counters of one worker thread of the runtime.
pub struct WorkerStats {
    pub park_count: u64,
    pub unpark_count: u64,
    /// Total time spent busy, in milliseconds.
    pub busy_millis: u64,
}

/// What the `ping` answer reports.
pub struct PingReport {
    /// Time from the command message's creation to its handling, in milliseconds.
    pub latency_millis: i64,
    /// Time it took to send the first answer, in milliseconds, once known.
    pub send_latency_millis: Option<u128>,
    /// Round trip to the gateway, in milliseconds, if it answered.
    pub gateway_latency_millis: Option<u128>,
    pub os: String,
    pub family: String,
    pub runtime_id: String,
    pub flavor: RuntimeFlavor,
    pub alive_tasks: u64,
    /// One entry per worker thread, in order.
    pub workers: Vec<WorkerStats>,
}

/// A line break followed by the indentation of the answer's template.
pub open spec fn nl_indent() -> Seq<char> {
    "\n            "@
}

/// The line that describes worker `i`.
pub open spec fn worker_line(i: int, w: WorkerStats) -> Seq<char> {
    "Worker #"@ + decimal(i as nat) + ": "@ + decimal(w.park_count as nat) + " times parked, "@
        + decimal(w.unpark_count as nat) + " times unparked, total busy for "@
        + pretty_duration_text(w.busy_millis)
}

/// The lines describing the workers, in order.
pub open spec fn worker_lines(ws: Seq<WorkerStats>) -> Seq<Seq<char>> {
    Seq::new(ws.len(), |i: int| worker_line(i, ws[i]))
}

/// The latency part of the answer's template.
pub open spec fn ping_head(r: &PingReport) -> Seq<char> {
    "**Latency:** "@ + signed_decimal(r.latency_millis as int) + " ms"@ + match r.send_latency_millis {
        Some(ms) => "\n**Message send latency:** "@ + decimal(ms as nat) + " ms"@,
        None => seq![],
    } + nl_indent() + "**Gateway latency:** "@ + match r.gateway_latency_millis {
        Some(ms) => decimal(ms as nat) + " ms"@,
        None => "*No response*"@,
    }
}

/// The platform part of the answer's template.
pub open spec fn ping_platform(r: &PingReport) -> Seq<char> {
    nl_indent() + "**Running on:** "@ + r.os@ + " ("@ + r.family@ + ")"@ + nl_indent() + nl_indent()
        + "__tokio metrics__"@ + nl_indent() + "**ID:** "@ + r.runtime_id@ + nl_indent()
        + "**Flavor:** "@ + flavor_name(r.flavor)
}

/// The counters part of the answer's template.
pub open spec fn ping_counters(r: &PingReport) -> Seq<char> {
    nl_indent() + "**Number of workers:** "@ + decimal(r.workers@.len()) + nl_indent()
        + "**Number of alive tasks:** "@ + decimal(r.alive_tasks as nat) + nl_indent() + "```"@
        + nl_indent() + join(worker_lines(r.workers@), "\n"@) + nl_indent() + "```"@
}

/// The answer's template filled in, before each line is trimmed.
pub open spec fn ping_raw(r: &PingReport) -> Seq<char> {
    ping_head(r) + ping_platform(r) + ping_counters(r)
}

/// The answer: the filled-in template with every line trimmed.
pub open spec fn ping_text(r: &PingReport) -> Seq<char> {
    trim_lines(ping_raw(r))
}

fn push_worker_lines(out: &mut Vec<char>, ws: &Vec<WorkerStats>)
    ensures
        final(out)@ == old(out)@ + join(worker_lines(ws@), "\n"@),
{
    let mut ls: Vec<Vec<char>> = Vec::new();
    let mut i: usize = 0;
    while i < ws.len()
        invariant
            i <= ws.len(),
            views(ls@) == worker_lines(ws@).take(i as int),
        decreases ws.len() - i,
    {
        let w = &ws[i];
        let mut line: Vec<char> = Vec::new();
        append_str(&mut line, "Worker #");
        push_decimal(&mut line, i as u128);
        append_str(&mut line, ": ");
        push_decimal(&mut line, w.park_count as u128);
        append_str(&mut line, " times parked, ");
        push_decimal(&mut line, w.unpark_count as u128);
        append_str(&mut line, " times unparked, total busy for ");
        let busy = pretty_duration_of(w.busy_millis);
        append_str(&mut line, busy.as_str());
        let ghost before = views(ls@);
        let ghost lv = line@;
        assert(lv =~= worker_line(i as int, ws@[i as int]));
        ls.push(line);
        assert(views(ls@) =~= before.push(lv));
        assert(worker_lines(ws@).take(i + 1) =~= worker_lines(ws@).take(i as int).push(lv));
        i = i + 1;
    }
    assert(worker_lines(ws@).take(ws.len() as int) =~= worker_lines(ws@));
    let nl = ['\n'];
    proof {
        assert(nl@ =~= "\n"@) by {
            reveal_strlit("\n");
        }
    }
    let joined = join_chars(&ls, nl.as_slice());
    append_chars(out, joined.as_slice());
}

fn push_head(raw: &mut Vec<char>, report: &PingReport)
    ensures
        final(raw)@ == old(raw)@ + ping_head(report),
{
    append_str(raw, "**Latency:** ");
    push_signed_decimal(raw, report.latency_millis);
    append_str(raw, " ms");
    match report.send_latency_millis {
        Some(ms) => {
            append_str(raw, "\n**Message send latency:** ");
            push_decimal(raw, ms);
            append_str(raw, " ms");
        },
        None => {},
    }
    append_str(raw, "\n            ");
    append_str(raw, "**Gateway latency:** ");
    match report.gateway_latency_millis {
        Some(ms) => {
            push_decimal(raw, ms);
            append_str(raw, " ms");
        },
        None => {
            append_str(raw, "*No response*");
        },
    }
    assert(final(raw)@ =~= old(raw)@ + ping_head(report));
}

fn push_platform(raw: &mut Vec<char>, report: &PingReport)
    ensures
        final(raw)@ == old(raw)@ + ping_platform(report),
{
    append_str(raw, "\n            ");
    append_str(raw, "**Running on:** ");
    append_str(raw, report.os.as_str());
    append_str(raw, " (");
    append_str(raw, report.family.as_str());
    append_str(raw, ")");
    append_str(raw, "\n            ");
    append_str(raw, "\n            ");
    append_str(raw, "__tokio metrics__");
    append_str(raw, "\n            ");
    append_str(raw, "**ID:** ");
    append_str(raw, report.runtime_id.as_str());
    append_str(raw, "\n            ");
    append_str(raw, "**Flavor:** ");
    match report.flavor {
        RuntimeFlavor::CurrentThread => append_str(raw, "Current Thread"),
        RuntimeFlavor::MultiThread => append_str(raw, "Multi Thread"),
        RuntimeFlavor::Other => append_str(raw, "Unknown"),
    }
    assert(final(raw)@ =~= old(raw)@ + ping_platform(report));
}

fn push_counters(raw: &mut Vec<char>, report: &PingReport)
    ensures
        final(raw)@ == old(raw)@ + ping_counters(report),
{
    append_str(raw, "\n            ");
    append_str(raw, "**Number of workers:** ");
    push_decimal(raw, report.workers.len() as u128);
    append_str(raw, "\n            ");
    append_str(raw, "**Number of alive tasks:** ");
    push_decimal(raw, report.alive_tasks as u128);
    append_str(raw, "\n            ");
    append_str(raw, "```");
    append_str(raw, "\n            ");
    push_worker_lines(raw, &report.workers);
    append_str(raw, "\n            ");
    append_str(raw, "```");
    assert(final(raw)@ =~= old(raw)@ + ping_counters(report));
}

/// The lines of `s`, each trimmed, joined by line breaks.
pub open spec fn trim_lines(s: Seq<char>) -> Seq<char> {
    join(lines(s).map_values(|l: Seq<char>| trim(l)), "\n"@)
}

fn trim_lines_exec(raw: &[char]) -> (r: Vec<char>)
    ensures
        r@ == trim_lines(raw@),
{
    let ls = split_lines(raw);
    let mut trimmed: Vec<Vec<char>> = Vec::new();
    let mut i: usize = 0;
    let ghost tl = lines(raw@).map_values(|l: Seq<char>| trim(l));
    while i < ls.len()
        invariant
            i <= ls.len(),
            views(ls@) == lines(raw@),
            tl == lines(raw@).map_values(|l: Seq<char>| trim(l)),
            views(trimmed@) == tl.take(i as int),
        decreases ls.len() - i,
    {
        let t = trim_chars(ls[i].as_slice());
        let ghost before = views(trimmed@);
        let ghost tv = t@;
        trimmed.push(t);
        assert(views(trimmed@) =~= before.push(tv));
        assert(tl.take(i + 1) =~= tl.take(i as int).push(tv));
        i = i + 1;
    }
    assert(tl.take(ls.len() as int) =~= tl);
    let nl = ['\n'];
    proof {
        assert(nl@ =~= "\n"@) by {
            reveal_strlit("\n");
        }
    }
    join_chars(&trimmed, nl.as_slice())
}

/// Builds the text of the `ping` answer: latencies, the platform, and the
/// runtime's counters with one line per worker; every line is trimmed.
pub fn ping_description(report: &PingReport) -> (r: String)
    ensures
        r@ == ping_text(report),
{
    let mut raw: Vec<char> = Vec::new();
    push_head(&mut raw, report);
    push_platform(&mut raw, report);
    push_counters(&mut raw, report);
    assert(raw@ =~= ping_raw(report));
    let out = trim_lines_exec(raw.as_slice());
    string_of(out.as_slice())
}

} // verus!
