//! Throughput and latency figures of a finished workload phase.

use vstd::prelude::*;
use vstd::string::*;

use crate::kind::OpKind;
use crate::text::{
    append_decimal, append_padded_decimal, decimal_text, padded_decimal_text,
};

verus! {

/// Thousandths of a record per second in one record per nanosecond.
pub const MILLI_PER_NANO: u128 = 1_000_000_000_000;

/// The outcome of one timed phase: what was done, to how many records, and
/// how long it took.
#[derive(Clone, Copy, Debug, PartialEq, Eq, Structural)]
pub struct WorkloadResult {
    pub kind: OpKind,
    pub count: u32,
    pub elapsed_nanos: u64,
}

/// The time per record in nanoseconds, rounded down. A phase over no
/// records has none.
pub open spec fn per_record_nanos(count: nat, elapsed_nanos: nat) -> Option<nat> {
    if count == 0 {
        None
    } else {
        Some(elapsed_nanos / count)
    }
}

/// The records per second in thousandths, rounded down. A phase over no
/// records, or one that took no measurable time, has none.
pub open spec fn records_per_second_milli(count: nat, elapsed_nanos: nat) -> Option<nat> {
    if count == 0 || elapsed_nanos == 0 {
        None
    } else {
        Some(count * 1_000_000_000_000 / elapsed_nanos)
    }
}

/// What `Debug` formatting prints for a `std::time::Duration` of that many
/// nanoseconds.
pub uninterp spec fn duration_text(nanos: u64) -> Seq<char>;

/// Formats `Duration::from_nanos(nanos)` with `{:?}`. The text depends on
/// the number alone.
#[verifier::external_body]
fn format_duration(nanos: u64) -> (text: String)
    ensures
        text@ == duration_text(nanos),
{
    format!("{:?}", std::time::Duration::from_nanos(nanos))
}

/// The text of an optional time span: the span, or `n/a`.
pub open spec fn optional_duration_text(nanos: Option<u64>) -> Seq<char> {
    match nanos {
        Some(n) => duration_text(n),
        None => "n/a"@,
    }
}

/// The text of a rate in thousandths: the whole part, a point and three
/// decimals, or `n/a`.
pub open spec fn rate_text(milli: Option<u128>) -> Seq<char> {
    match milli {
        Some(m) => decimal_text((m / 1000) as nat) + "."@ + padded_decimal_text(
            (m % 1000) as nat,
            3,
        ),
        None => "n/a"@,
    }
}

/// The figures derived from one `WorkloadResult`.
#[derive(Clone, Copy, Debug, PartialEq, Eq, Structural)]
pub struct BenchmarkReport {
    pub kind: OpKind,
    pub count: u32,
    pub elapsed_nanos: u64,
    /// Nanoseconds per record; `None` when no record was processed.
    pub per_record_nanos: Option<u64>,
    /// Thousandths of a record per second; `None` when no record was
    /// processed or no time was measured.
    pub records_per_second_milli: Option<u128>,
}

impl BenchmarkReport {
    /// The figures are those of `result`.
    pub open spec fn reports(self, result: WorkloadResult) -> bool {
        &&& self.kind == result.kind
        &&& self.count == result.count
        &&& self.elapsed_nanos == result.elapsed_nanos
        &&& match per_record_nanos(result.count as nat, result.elapsed_nanos as nat) {
            Some(n) => self.per_record_nanos == Some(n as u64) && n <= u64::MAX,
            None => self.per_record_nanos is None,
        }
        &&& match records_per_second_milli(result.count as nat, result.elapsed_nanos as nat) {
            Some(m) => self.records_per_second_milli == Some(m as u128) && m <= u128::MAX,
            None => self.records_per_second_milli is None,
        }
    }

    /// Derives the figures of a finished phase. Nothing is divided by zero:
    /// a phase over no records has neither figure, and one that took no
    /// measurable time has no rate.
    pub fn from_result(result: &WorkloadResult) -> (report: BenchmarkReport)
        ensures
            report.reports(*result),
            result.count == 0 ==> report.per_record_nanos is None
                && report.records_per_second_milli is None,
            result.count > 0 ==> report.per_record_nanos is Some,
            result.count > 0 && result.elapsed_nanos > 0
                ==> report.records_per_second_milli is Some,
    {
        let per_record = if result.count == 0 {
            None
        } else {
            Some(result.elapsed_nanos / (result.count as u64))
        };
        let rate = if result.count == 0 || result.elapsed_nanos == 0 {
            None
        } else {
            assert(result.count as u128 * MILLI_PER_NANO <= u128::MAX) by (nonlinear_arith)
                requires
                    result.count as u128 <= 0xffff_ffff,
                    MILLI_PER_NANO == 1_000_000_000_000,
            ;
            Some((result.count as u128) * MILLI_PER_NANO / (result.elapsed_nanos as u128))
        };
        proof {
            if result.count > 0 && result.elapsed_nanos > 0 {
                let c = result.count as int;
                let e = result.elapsed_nanos as int;
                assert(c * 1_000_000_000_000 / e <= c * 1_000_000_000_000) by (nonlinear_arith)
                    requires
                        c > 0,
                        e > 0,
                ;
                assert(c * 1_000_000_000_000 <= u128::MAX) by (nonlinear_arith)
                    requires
                        c <= 0xffff_ffff,
                ;
            }
            if result.count > 0 {
                let c = result.count as int;
                let e = result.elapsed_nanos as int;
                assert(0 <= e / c <= e) by (nonlinear_arith)
                    requires
                        c > 0,
                        e >= 0,
                ;
            }
        }
        BenchmarkReport {
            kind: result.kind,
            count: result.count,
            elapsed_nanos: result.elapsed_nanos,
            per_record_nanos: per_record,
            records_per_second_milli: rate,
        }
    }

    /// The line that gives the time of the whole phase.
    pub open spec fn total_line_text(self) -> Seq<char> {
        "Time taken to "@ + self.kind.verb_text() + " "@ + decimal_text(self.count as nat)
            + " records: "@ + duration_text(self.elapsed_nanos)
    }

    /// The line that gives the time of one record.
    pub open spec fn per_record_line_text(self) -> Seq<char> {
        "Time taken to "@ + self.kind.verb_text() + " 1 record: "@ + optional_duration_text(
            self.per_record_nanos,
        )
    }

    /// The line that gives the records per second.
    pub open spec fn rate_line_text(self) -> Seq<char> {
        "Records per second: "@ + rate_text(self.records_per_second_milli)
    }

    /// The line that gives the time of the whole phase.
    pub fn total_line(&self) -> (line: String)
        ensures
            line@ == self.total_line_text(),
    {
        let mut line = String::from_str("Time taken to ");
        line.append(self.kind.verb());
        line.append(" ");
        append_decimal(&mut line, self.count as u128);
        line.append(" records: ");
        let span = format_duration(self.elapsed_nanos);
        line.append(span.as_str());
        line
    }

    /// The line that gives the time of one record, with `n/a` in its place
    /// when the report has none.
    pub fn per_record_line(&self) -> (line: String)
        ensures
            line@ == self.per_record_line_text(),
    {
        let mut line = String::from_str("Time taken to ");
        line.append(self.kind.verb());
        line.append(" 1 record: ");
        match self.per_record_nanos {
            Some(n) => {
                let span = format_duration(n);
                line.append(span.as_str());
            },
            None => {
                line.append("n/a");
            },
        }
        line
    }

    /// The line that gives the records per second, with `n/a` in its place
    /// when the report has none.
    pub fn rate_line(&self) -> (line: String)
        ensures
            line@ == self.rate_line_text(),
    {
        let mut line = String::from_str("Records per second: ");
        match self.records_per_second_milli {
            Some(m) => {
                let ghost before = line@;
                append_decimal(&mut line, m / 1000);
                line.append(".");
                append_padded_decimal(&mut line, m % 1000, 3);
                assert(line@ =~= before + rate_text(Some(m)));
            },
            None => {
                line.append("n/a");
            },
        }
        line
    }
}

/// The report of a phase over no records holds `n/a` where a figure would
/// stand, whatever time was measured.
pub proof fn lemma_empty_phase_reports_sentinel(report: BenchmarkReport, result: WorkloadResult)
    requires
        result.count == 0,
        report.reports(result),
    ensures
        report.per_record_nanos is None,
        report.records_per_second_milli is None,
        report.per_record_line_text() == "Time taken to "@ + result.kind.verb_text()
            + " 1 record: "@ + "n/a"@,
        report.rate_line_text() == "Records per second: "@ + "n/a"@,
{
}

/// The figures of a phase over some records that took some time are the
/// rounded-down quotients, and both exist.
pub proof fn lemma_figures_of_timed_phase(report: BenchmarkReport, result: WorkloadResult)
    requires
        result.count > 0,
        result.elapsed_nanos > 0,
        report.reports(result),
    ensures
        report.per_record_nanos == Some((result.elapsed_nanos / result.count as u64) as u64),
        report.records_per_second_milli == Some(
            (result.count as nat * 1_000_000_000_000 / result.elapsed_nanos as nat) as u128,
        ),
        report.per_record_nanos->0 * result.count <= result.elapsed_nanos,
{
    let c = result.count as int;
    let e = result.elapsed_nanos as int;
    assert((e / c) * c <= e) by (nonlinear_arith)
        requires
            c > 0,
            e >= 0,
    ;
    assert(0 <= e / c <= e) by (nonlinear_arith)
        requires
            c > 0,
            e >= 0,
    ;
}

} // verus!
