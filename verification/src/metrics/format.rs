//! The Prometheus text format of metrics.
use vstd::prelude::*;
use super::structures::{CountView, LabelView, MetricLabel, NamedHashMap, labels_view};
use crate::chars::{decimal, push_char, push_decimal, push_str};

verus! {

/// A value of a metric.
pub enum MetricValue {
    Int(i64),
    /// The current value of a counter.
    AtomicInt(u64),
    /// A floating point reading, already written out in decimal.
    Float(String),
}

/// The decimal text of a signed integer.
pub open spec fn signed_decimal(i: int) -> Seq<char> {
    if i < 0 {
        seq!['-'] + decimal((-i) as nat)
    } else {
        decimal(i as nat)
    }
}

/// The text of a value.
pub open spec fn value_text(v: MetricValue) -> Seq<char> {
    match v {
        MetricValue::Int(i) => signed_decimal(i as int),
        MetricValue::AtomicInt(n) => decimal(n as nat),
        MetricValue::Float(t) => t@,
    }
}

/// The `HELP` and `TYPE` lines of a metric.
pub open spec fn label_lines(key: Seq<char>, kind: Seq<char>, desc: Seq<char>) -> Seq<char> {
    "# HELP "@ + key + " "@ + desc + "\n"@ + "# TYPE "@ + key + " "@ + kind + "\n"@
}

/// `name="value"` for one label.
pub open spec fn label_text(l: LabelView) -> Seq<char> {
    l.0 + "=\""@ + l.1 + "\""@
}

/// The labels, each as `name="value"`, joined by commas.
pub open spec fn joined_labels(labels: Seq<LabelView>) -> Seq<char>
    decreases labels.len(),
{
    if labels.len() == 0 {
        Seq::empty()
    } else if labels.len() == 1 {
        label_text(labels[0])
    } else {
        joined_labels(labels.drop_last()) + ","@ + label_text(labels.last())
    }
}

/// The label part of a sample line: nothing where there are no labels,
/// else the labels in braces.
pub open spec fn labels_part(labels: Seq<LabelView>) -> Seq<char> {
    if labels.len() == 0 {
        Seq::empty()
    } else {
        "{"@ + joined_labels(labels) + "}"@
    }
}

/// A sample line: the key, the labels, a space, the value and a newline.
pub open spec fn value_line(key: Seq<char>, labels: Seq<LabelView>, value: Seq<char>) -> Seq<char> {
    key + labels_part(labels) + " "@ + value + "\n"@
}

/// The sample lines of the first `n` counts.
pub open spec fn count_lines(key: Seq<char>, counts: Seq<CountView>, n: int) -> Seq<char>
    decreases n,
{
    if n <= 0 {
        Seq::empty()
    } else {
        count_lines(key, counts, n - 1) + value_line(key, counts[n - 1].0, decimal(counts[n - 1].1 as nat))
    }
}

/// The text of a counter: nothing where it has no counts, else its `HELP`
/// and `TYPE` lines and a line for each count, in order.
pub open spec fn metric_text(name: Seq<char>, desc: Seq<char>, counts: Seq<CountView>) -> Seq<char> {
    if counts.len() == 0 {
        Seq::empty()
    } else {
        label_lines(name, "counter"@, desc) + count_lines(name, counts, counts.len() as int)
    }
}

/// Appends the `HELP` and `TYPE` lines of a metric.
pub fn append_metric_label(output_buffer: &mut String, key: &str, kind: &str, desc: &str)
    ensures
        final(output_buffer)@ == old(output_buffer)@ + label_lines(key@, kind@, desc@),
{
    push_str(output_buffer, "# HELP ");
    push_str(output_buffer, key);
    push_char(output_buffer, ' ');
    push_str(output_buffer, desc);
    push_char(output_buffer, '\n');
    push_str(output_buffer, "# TYPE ");
    push_str(output_buffer, key);
    push_char(output_buffer, ' ');
    push_str(output_buffer, kind);
    push_char(output_buffer, '\n');
    proof {
        reveal_strlit(" ");
        reveal_strlit("\n");
        assert(final(output_buffer)@ =~= old(output_buffer)@ + label_lines(key@, kind@, desc@));
    }
}

/// Appends the decimal text of a signed integer.
fn push_signed(s: &mut String, i: i64)
    ensures
        final(s)@ == old(s)@ + signed_decimal(i as int),
{
    if i < 0 {
        push_char(s, '-');
        let magnitude: u64 = if i == i64::MIN {
            9223372036854775808u64
        } else {
            (-i) as u64
        };
        push_decimal(s, magnitude);
        assert(final(s)@ =~= old(s)@ + signed_decimal(i as int));
    } else {
        push_decimal(s, i as u64);
    }
}

/// Appends a sample line of a metric.
pub fn append_metric_value(output_buffer: &mut String, key: &str, labels: &[MetricLabel], value: MetricValue)
    ensures
        final(output_buffer)@ == old(output_buffer)@ + value_line(key@, labels_view(labels@), value_text(value)),
{
    let ghost ls = labels_view(labels@);
    push_str(output_buffer, key);
    let ghost after_key = output_buffer@;
    if labels.len() > 0 {
        push_char(output_buffer, '{');
        let ghost start = output_buffer@;
        let mut n: usize = 0;
        while n < labels.len()
            invariant
                n <= labels@.len(),
                labels@.len() > 0,
                ls == labels_view(labels@),
                output_buffer@ == start + joined_labels(ls.take(n as int)),
            decreases labels@.len() - n,
        {
            let ghost before = output_buffer@;
            if n > 0 {
                push_char(output_buffer, ',');
            }
            push_str(output_buffer, labels[n].0.as_str());
            push_str(output_buffer, "=\"");
            push_str(output_buffer, labels[n].1.as_str());
            push_char(output_buffer, '"');
            proof {
                reveal_strlit("=\"");
                reveal_strlit("\"");
                reveal_strlit(",");
                let t = ls.take(n as int + 1);
                assert(t.drop_last() =~= ls.take(n as int));
                assert(t.last() == labels@[n as int]@);
                if n == 0 {
                    assert(output_buffer@ =~= start + joined_labels(t));
                } else {
                    assert(output_buffer@ =~= start + joined_labels(t));
                }
            }
            n += 1;
        }
        push_char(output_buffer, '}');
        proof {
            reveal_strlit("{");
            reveal_strlit("}");
            assert(ls.take(n as int) =~= ls);
            assert(output_buffer@ =~= after_key + labels_part(ls));
        }
    } else {
        assert(labels_part(ls) =~= Seq::<char>::empty());
    }
    let ghost after_labels = output_buffer@;
    push_char(output_buffer, ' ');
    match value {
        MetricValue::Int(i) => push_signed(output_buffer, i),
        MetricValue::AtomicInt(n) => push_decimal(output_buffer, n),
        MetricValue::Float(t) => push_str(output_buffer, t.as_str()),
    }
    push_char(output_buffer, '\n');
    proof {
        reveal_strlit(" ");
        reveal_strlit("\n");
        assert(output_buffer@ =~= old(output_buffer)@ + value_line(key@, ls, value_text(value)));
    }
}

/// Appends the text of a counter.
pub fn append_metric(output_buffer: &mut String, metric: &NamedHashMap)
    ensures
        final(output_buffer)@ == old(output_buffer)@ + metric_text(metric.name@, metric.desc@, metric.counts()),
{
    if metric.is_empty() {
        assert(old(output_buffer)@ + metric_text(metric.name@, metric.desc@, metric.counts()) =~= old(output_buffer)@);
        return;
    }
    append_metric_label(output_buffer, metric.name.as_str(), "counter", metric.desc);
    let ghost start = output_buffer@;
    let mut i: usize = 0;
    while i < metric.inner.len()
        invariant
            i <= metric.inner@.len(),
            output_buffer@ == start + count_lines(metric.name@, metric.counts(), i as int),
        decreases metric.inner@.len() - i,
    {
        append_metric_value(
            output_buffer,
            metric.name.as_str(),
            metric.inner[i].0.as_slice(),
            MetricValue::AtomicInt(metric.inner[i].1),
        );
        i += 1;
        assert(output_buffer@ =~= start + count_lines(metric.name@, metric.counts(), i as int));
    }
    assert(output_buffer@ =~= old(output_buffer)@ + metric_text(metric.name@, metric.desc@, metric.counts()));
}

} // verus!
