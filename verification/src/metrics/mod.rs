//! Counting requests and classifications, and writing the counts out.
pub mod format;
pub mod persistence;
pub mod procfs;
pub mod structures;

use vstd::prelude::*;
use format::{append_metric, metric_text};
use structures::{
    CountView, LabelView, MetricLabel, NamedHashMap, bumped, copy_labels, count_of, keys_distinct, labels_view,
    lemma_bumped_counts, next_count,
};
use crate::chars::{decimal, decimal_string};
use crate::classifier::classifier::{
    Classification, Decision, DecisionView, SpamReason, SpamReasonView, ValidReason, ValidReasonView, opt_text,
};
use crate::config::settings::Config;
use crate::config::values::copy_string;

verus! {

/// The counters of the program, and where they are persisted.
#[derive(Debug)]
pub struct Metrics {
    request_counter: NamedHashMap,
    classification_spam_counter: NamedHashMap,
    classification_valid_counter: NamedHashMap,
    asn_known_counter: NamedHashMap,
    asn_hidden_counter: NamedHashMap,
    persist_path: Option<String>,
}

/// The counts of the counters.
pub struct MetricsView {
    pub requests: Seq<CountView>,
    pub spam: Seq<CountView>,
    pub valid: Seq<CountView>,
    pub asn_known: Seq<CountView>,
    pub asn_hidden: Seq<CountView>,
}

/// Whether a counter is well formed and has this name and description.
pub open spec fn named(m: NamedHashMap, name: Seq<char>, desc: Seq<char>) -> bool {
    m.wf() && m.name@ == name && m.desc@ == desc
}

impl Metrics {
    /// The counts.
    pub closed spec fn counts(&self) -> MetricsView {
        MetricsView {
            requests: self.request_counter.counts(),
            spam: self.classification_spam_counter.counts(),
            valid: self.classification_valid_counter.counts(),
            asn_known: self.asn_known_counter.counts(),
            asn_hidden: self.asn_hidden_counter.counts(),
        }
    }

    /// Where the counts are persisted.
    pub closed spec fn persist_path_spec(&self) -> Option<Seq<char>> {
        opt_text(self.persist_path)
    }

    /// Whether each counter is well formed and has its name and description.
    pub closed spec fn wf(&self) -> bool {
        &&& named(self.request_counter, "requests"@, "Number of requests"@)
        &&& named(self.classification_spam_counter, "classifications_spam"@, "Number of spam classifications"@)
        &&& named(self.classification_valid_counter, "classifications_valid"@, "Number of valid classifications"@)
        &&& named(self.asn_known_counter, "asns_known"@, "ASNs whence originate spam"@)
        &&& named(self.asn_hidden_counter, "asns_hidden"@, "ASNs hiding spam"@)
    }

    /// In well-formed metrics, no counter holds a label set twice.
    pub proof fn lemma_wf_keys_distinct(&self)
        requires
            self.wf(),
        ensures
            keys_distinct(self.counts().requests),
            keys_distinct(self.counts().spam),
            keys_distinct(self.counts().valid),
            keys_distinct(self.counts().asn_known),
            keys_distinct(self.counts().asn_hidden),
    {
    }

    /// The text of all the counters, in the Prometheus format.
    pub closed spec fn text(&self) -> Seq<char> {
        metric_text("requests"@, "Number of requests"@, self.counts().requests) + metric_text(
            "classifications_spam"@,
            "Number of spam classifications"@,
            self.counts().spam,
        ) + metric_text("classifications_valid"@, "Number of valid classifications"@, self.counts().valid)
            + metric_text("asns_known"@, "ASNs whence originate spam"@, self.counts().asn_known) + metric_text(
            "asns_hidden"@,
            "ASNs hiding spam"@,
            self.counts().asn_hidden,
        )
    }

    /// Counts a request with these labels.
    pub fn increment_request(&mut self, labels: Vec<MetricLabel>)
        requires
            old(self).wf(),
        ensures
            final(self).wf(),
            final(self).persist_path_spec() == old(self).persist_path_spec(),
            final(self).counts() == (MetricsView {
                requests: bumped(old(self).counts().requests, labels_view(labels@)),
                ..old(self).counts()
            }),
    {
        self.request_counter.increment(labels);
    }

    /// Counts a spam classification with these labels.
    pub fn increment_classification_spam(&mut self, labels: Vec<MetricLabel>)
        requires
            old(self).wf(),
        ensures
            final(self).wf(),
            final(self).persist_path_spec() == old(self).persist_path_spec(),
            final(self).counts() == (MetricsView {
                spam: bumped(old(self).counts().spam, labels_view(labels@)),
                ..old(self).counts()
            }),
    {
        self.classification_spam_counter.increment(labels);
    }

    /// Counts a valid classification with these labels.
    pub fn increment_classification_valid(&mut self, labels: Vec<MetricLabel>)
        requires
            old(self).wf(),
        ensures
            final(self).wf(),
            final(self).persist_path_spec() == old(self).persist_path_spec(),
            final(self).counts() == (MetricsView {
                valid: bumped(old(self).counts().valid, labels_view(labels@)),
                ..old(self).counts()
            }),
    {
        self.classification_valid_counter.increment(labels);
    }

    /// Counts spam from a network known to be unwanted.
    pub fn increment_asn_known(&mut self, asn: u32)
        requires
            old(self).wf(),
        ensures
            final(self).wf(),
            final(self).persist_path_spec() == old(self).persist_path_spec(),
            final(self).counts() == (MetricsView {
                asn_known: bumped(old(self).counts().asn_known, asn_labels(asn)),
                ..old(self).counts()
            }),
    {
        let labels = asn_label_vec(asn);
        self.asn_known_counter.increment(labels);
    }

    /// Counts spam from a network that was not known to be unwanted.
    pub fn increment_asn_hidden(&mut self, asn: u32)
        requires
            old(self).wf(),
        ensures
            final(self).wf(),
            final(self).persist_path_spec() == old(self).persist_path_spec(),
            final(self).counts() == (MetricsView {
                asn_hidden: bumped(old(self).counts().asn_hidden, asn_labels(asn)),
                ..old(self).counts()
            }),
    {
        let labels = asn_label_vec(asn);
        self.asn_hidden_counter.increment(labels);
    }

    /// The text of all the counters, in the Prometheus format.
    pub fn to_prometheus(&self) -> (r: String)
        requires
            self.wf(),
        ensures
            r@ == self.text(),
    {
        let mut output_buffer = String::new();
        append_metric(&mut output_buffer, &self.request_counter);
        append_metric(&mut output_buffer, &self.classification_spam_counter);
        append_metric(&mut output_buffer, &self.classification_valid_counter);
        append_metric(&mut output_buffer, &self.asn_known_counter);
        append_metric(&mut output_buffer, &self.asn_hidden_counter);
        assert(output_buffer@ =~= self.text());
        output_buffer
    }

    /// Where the counts are persisted.
    pub fn persist_path(&self) -> (r: Option<String>)
        ensures
            opt_text(r) == self.persist_path_spec(),
    {
        match &self.persist_path {
            Some(p) => Some(copy_string(p)),
            None => None,
        }
    }
}

/// The label of a network.
pub open spec fn asn_labels(asn: u32) -> Seq<LabelView> {
    seq![("asn"@, decimal(asn as nat))]
}

/// The label of a network.
fn asn_label_vec(asn: u32) -> (r: Vec<MetricLabel>)
    ensures
        labels_view(r@) == asn_labels(asn),
{
    let mut v: Vec<MetricLabel> = Vec::new();
    v.push(MetricLabel("asn".to_owned(), decimal_string(asn as u64)));
    assert(labels_view(v@) =~= asn_labels(asn));
    v
}

/// No counts.
pub open spec fn no_counts() -> MetricsView {
    MetricsView {
        requests: Seq::empty(),
        spam: Seq::empty(),
        valid: Seq::empty(),
        asn_known: Seq::empty(),
        asn_hidden: Seq::empty(),
    }
}

/// Counters with no counts, persisted where the settings say.
pub fn init(config: &Config) -> (r: Metrics)
    ensures
        r.wf(),
        r.counts() == no_counts(),
        r.persist_path_spec() == match config.metrics {
            Some(m) => opt_text(m.persist_path),
            None => None,
        },
{
    let persist_path = match &config.metrics {
        Some(m) => match &m.persist_path {
            Some(p) => Some(copy_string(p)),
            None => None,
        },
        None => None,
    };
    Metrics {
        request_counter: NamedHashMap::new("requests", "Number of requests"),
        classification_spam_counter: NamedHashMap::new("classifications_spam", "Number of spam classifications"),
        classification_valid_counter: NamedHashMap::new("classifications_valid", "Number of valid classifications"),
        asn_known_counter: NamedHashMap::new("asns_known", "ASNs whence originate spam"),
        asn_hidden_counter: NamedHashMap::new("asns_hidden", "ASNs hiding spam"),
        persist_path,
    }
}

/// The label of a host, where there is one.
pub open spec fn host_labels(host: Option<Seq<char>>) -> Seq<LabelView> {
    match host {
        Some(h) => seq![("host"@, h)],
        None => Seq::empty(),
    }
}

/// The reason label of a valid decision; none for a trusted decision.
pub open spec fn valid_reason_name(r: ValidReasonView) -> Option<Seq<char>> {
    match r {
        ValidReasonView::Default => Some("default"@),
        ValidReasonView::TrustedIP(_) => Some("trusted ip"@),
        ValidReasonView::TrustedPath(_) => Some("trusted path"@),
        ValidReasonView::TrustedAgent(_) => Some("trusted agent"@),
        ValidReasonView::TrustedDecision => None,
    }
}

/// The reason label of a spam decision; none for a trusted decision.
pub open spec fn spam_reason_name(r: SpamReasonView) -> Option<Seq<char>> {
    match r {
        SpamReasonView::Poison(_) => Some("poison"@),
        SpamReasonView::UnwantedASN(_) => Some("unwanted ASN"@),
        SpamReasonView::UnwantedAgent(_) => Some("unwanted agent"@),
        SpamReasonView::TrustedDecision => None,
    }
}

/// The counts after recording a request: one more request for its host;
/// one more classification for its host and reason, unless the decision was
/// a trusted one; and, for spam from a known network, one more count for
/// the network, as hidden where the spam was caught by a poison and as
/// known otherwise.
pub open spec fn recorded(m: MetricsView, host: Option<Seq<char>>, asn: Option<u32>, d: DecisionView) -> MetricsView {
    let hl = host_labels(host);
    let m1 = MetricsView { requests: bumped(m.requests, hl), ..m };
    match d {
        DecisionView::Valid(r) => match valid_reason_name(r) {
            Some(t) => MetricsView { valid: bumped(m1.valid, hl.push(("reason"@, t))), ..m1 },
            None => m1,
        },
        DecisionView::Spam(r) => match spam_reason_name(r) {
            Some(t) => {
                let m2 = MetricsView { spam: bumped(m1.spam, hl.push(("reason"@, t))), ..m1 };
                match asn {
                    Some(n) => if r is Poison {
                        MetricsView { asn_hidden: bumped(m2.asn_hidden, asn_labels(n)), ..m2 }
                    } else {
                        MetricsView { asn_known: bumped(m2.asn_known, asn_labels(n)), ..m2 }
                    },
                    None => m2,
                }
            },
            None => m1,
        },
    }
}

/// The labels with a reason label added.
fn with_reason(labels: &Vec<MetricLabel>, reason: &str) -> (r: Vec<MetricLabel>)
    ensures
        labels_view(r@) == labels_view(labels@).push(("reason"@, reason@)),
{
    let mut v = copy_labels(labels);
    let ghost before = v@;
    v.push(MetricLabel("reason".to_owned(), reason.to_owned()));
    assert(labels_view(v@) =~= labels_view(before).push(("reason"@, reason@)));
    v
}

/// Records a request and its classification.
pub fn record_request(metrics: &mut Metrics, c: Classification)
    requires
        old(metrics).wf(),
    ensures
        final(metrics).wf(),
        final(metrics).persist_path_spec() == old(metrics).persist_path_spec(),
        final(metrics).counts() == recorded(old(metrics).counts(), opt_text(c.host), c.asn, c.decision@),
{
    let mut labels: Vec<MetricLabel> = Vec::new();
    if let Some(host) = &c.host {
        labels.push(MetricLabel("host".to_owned(), copy_string(host)));
    }
    assert(labels_view(labels@) =~= host_labels(opt_text(c.host)));
    metrics.increment_request(copy_labels(&labels));
    match &c.decision {
        Decision::Valid(reason) => {
            let name = match reason {
                ValidReason::Default => "default",
                ValidReason::TrustedIP(_) => "trusted ip",
                ValidReason::TrustedPath(_) => "trusted path",
                ValidReason::TrustedAgent(_) => "trusted agent",
                ValidReason::TrustedDecision => {
                    return;
                },
            };
            metrics.increment_classification_valid(with_reason(&labels, name));
        },
        Decision::Spam(reason) => {
            let name = match reason {
                SpamReason::Poison(_) => "poison",
                SpamReason::UnwantedASN(_) => "unwanted ASN",
                SpamReason::UnwantedAgent(_) => "unwanted agent",
                SpamReason::TrustedDecision => {
                    return;
                },
            };
            metrics.increment_classification_spam(with_reason(&labels, name));
            if let Some(asn) = c.asn {
                if let SpamReason::Poison(_) = reason {
                    metrics.increment_asn_hidden(asn);
                } else {
                    metrics.increment_asn_known(asn);
                }
            }
        },
    }
}

/// Recording a request counts exactly one more request for its host label
/// (wrapping past the largest count) and keeps the request count of every
/// other label set; a decision carried by the trusted header adds no
/// classification and no network count.
pub proof fn lemma_record_counts_one_request(
    m: MetricsView,
    host: Option<Seq<char>>,
    asn: Option<u32>,
    d: DecisionView,
    other: Seq<LabelView>,
)
    requires
        keys_distinct(m.requests),
    ensures
        count_of(recorded(m, host, asn, d).requests, host_labels(host)) == next_count(
            count_of(m.requests, host_labels(host)),
        ),
        other != host_labels(host) ==> count_of(recorded(m, host, asn, d).requests, other) == count_of(
            m.requests,
            other,
        ),
        (d is Valid && d->Valid_0 is TrustedDecision) || (d is Spam && d->Spam_0 is TrustedDecision) ==> {
            let r = recorded(m, host, asn, d);
            r.valid == m.valid && r.spam == m.spam && r.asn_known == m.asn_known && r.asn_hidden == m.asn_hidden
        },
{
    lemma_bumped_counts(m.requests, host_labels(host), other);
}

} // verus!
