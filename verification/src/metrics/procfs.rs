//! Metrics of the running process, from readings of its status.
use vstd::prelude::*;
use super::format::{MetricValue, append_metric_label, append_metric_value, label_lines, signed_decimal, value_line};
use super::structures::{LabelView, MetricLabel, labels_view};

verus! {

/// Readings of the process's status: its threads, its virtual memory size in
/// bytes, its resident set in pages, the page size in bytes, and its user
/// and system CPU time in seconds, already written out in decimal.
pub struct ProcessStat {
    pub num_threads: i64,
    pub vsize: u64,
    pub rss: u64,
    pub page_size: i64,
    pub cpu_time_seconds: String,
}

/// Readings of the process's file descriptors: how many are open, and the
/// soft limit where there is one.
pub struct FdStat {
    pub open: usize,
    pub max_open: Option<u64>,
}

/// The resident set in bytes.
pub open spec fn rss_bytes(s: ProcessStat) -> int {
    (s.rss as i64) * s.page_size
}

/// The text of the status readings.
pub open spec fn stat_text(s: ProcessStat) -> Seq<char> {
    label_lines("threads"@, "gauge"@, "Number of OS threads in the process"@) + value_line(
        "threads"@,
        Seq::empty(),
        signed_decimal(s.num_threads as int),
    ) + label_lines("vss_bytes"@, "gauge"@, "Virtual memory size in bytes"@) + value_line(
        "vss_bytes"@,
        Seq::empty(),
        signed_decimal((s.vsize as i64) as int),
    ) + label_lines("rss_bytes"@, "gauge"@, "Resident memory size in bytes"@) + value_line(
        "rss_bytes"@,
        Seq::empty(),
        signed_decimal(rss_bytes(s)),
    ) + label_lines("cpu_time_seconds"@, "gauge"@, "Total user and system CPU time in seconds"@)
        + value_line("cpu_time_seconds"@, Seq::empty(), s.cpu_time_seconds@)
}

/// The label `fds` with a value.
pub open spec fn fds_label(v: Seq<char>) -> Seq<LabelView> {
    seq![("fds"@, v)]
}

/// The text of the file descriptor readings.
pub open spec fn fd_text(f: FdStat) -> Seq<char> {
    label_lines("fds"@, "gauge"@, "Number of open file descriptors"@) + value_line(
        "fds"@,
        fds_label("open"@),
        signed_decimal((f.open as i64) as int),
    ) + match f.max_open {
        Some(m) => value_line("fds"@, fds_label("max"@), signed_decimal((m as i64) as int)),
        None => Seq::empty(),
    }
}

/// The label `fds` with a value.
fn fds_label_vec(v: &str) -> (r: Vec<MetricLabel>)
    ensures
        labels_view(r@) == fds_label(v@),
{
    let mut out: Vec<MetricLabel> = Vec::new();
    out.push(MetricLabel("fds".to_owned(), v.to_owned()));
    assert(labels_view(out@) =~= fds_label(v@));
    out
}

/// Appends the metrics of the process: those of its status where it could
/// be read, then those of its file descriptors where they could be read.
pub fn append_procfs_metrics(output_buffer: &mut String, stat: Option<ProcessStat>, fds: Option<FdStat>)
    requires
        stat matches Some(s) ==> i64::MIN <= rss_bytes(s) <= i64::MAX,
    ensures
        final(output_buffer)@ == old(output_buffer)@ + match stat {
            Some(s) => stat_text(s),
            None => Seq::empty(),
        } + match fds {
            Some(f) => fd_text(f),
            None => Seq::empty(),
        },
{
    let ghost start = output_buffer@;
    if let Some(s) = stat {
        let empty: Vec<MetricLabel> = Vec::new();
        assert(labels_view(empty@) =~= Seq::<LabelView>::empty());
        append_metric_label(output_buffer, "threads", "gauge", "Number of OS threads in the process");
        append_metric_value(output_buffer, "threads", empty.as_slice(), MetricValue::Int(s.num_threads));
        append_metric_label(output_buffer, "vss_bytes", "gauge", "Virtual memory size in bytes");
        #[verifier::truncate]
        let vss = s.vsize as i64;
        append_metric_value(output_buffer, "vss_bytes", empty.as_slice(), MetricValue::Int(vss));
        append_metric_label(output_buffer, "rss_bytes", "gauge", "Resident memory size in bytes");
        #[verifier::truncate]
        let pages = s.rss as i64;
        let rss = pages * s.page_size;
        append_metric_value(output_buffer, "rss_bytes", empty.as_slice(), MetricValue::Int(rss));
        append_metric_label(output_buffer, "cpu_time_seconds", "gauge", "Total user and system CPU time in seconds");
        append_metric_value(output_buffer, "cpu_time_seconds", empty.as_slice(), MetricValue::Float(s.cpu_time_seconds));
        assert(output_buffer@ =~= start + stat_text(s));
    }
    let ghost middle = output_buffer@;
    if let Some(f) = fds {
        append_metric_label(output_buffer, "fds", "gauge", "Number of open file descriptors");
        #[verifier::truncate]
        let open = f.open as i64;
        let open_label = fds_label_vec("open");
        append_metric_value(output_buffer, "fds", open_label.as_slice(), MetricValue::Int(open));
        if let Some(m) = f.max_open {
            #[verifier::truncate]
            let max = m as i64;
            let max_label = fds_label_vec("max");
            append_metric_value(output_buffer, "fds", max_label.as_slice(), MetricValue::Int(max));
        }
        assert(output_buffer@ =~= middle + fd_text(f));
    }
    assert(output_buffer@ =~= start + match stat {
        Some(s) => stat_text(s),
        None => Seq::empty(),
    } + match fds {
        Some(f) => fd_text(f),
        None => Seq::empty(),
    });
}

} // verus!
