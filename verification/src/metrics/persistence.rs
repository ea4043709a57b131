//! The counts as plain data, to be saved and loaded again.
use vstd::prelude::*;
use super::{Metrics, MetricsView, no_counts};
use super::structures::{
    CountView, LabelView, MetricLabel, NamedHashMap, index_of, keys_distinct, labels_view, lemma_index_of, stored,
};
use crate::config::document::str_eq;
use crate::config::values::copy_string;

verus! {

/// Counters as plain data: for each counter its name, and for each count
/// its labels as name and value pairs and its value.
pub type PersistedMetrics = Vec<(String, Vec<(Vec<(String, String)>, u64)>)>;

/// A persisted counter.
pub type PersistedView = (Seq<char>, Seq<CountView>);

/// The labels of name and value pairs.
pub open spec fn pairs_view(v: Seq<(String, String)>) -> Seq<LabelView> {
    v.map_values(|p: (String, String)| (p.0@, p.1@))
}

/// The counts of a persisted counter.
pub open spec fn entries_view(v: Seq<(Vec<(String, String)>, u64)>) -> Seq<CountView> {
    v.map_values(|e: (Vec<(String, String)>, u64)| (pairs_view(e.0@), e.1))
}

/// Persisted counters as views.
pub open spec fn persisted_view(p: Seq<(String, Vec<(Vec<(String, String)>, u64)>)>) -> Seq<PersistedView> {
    p.map_values(|m: (String, Vec<(Vec<(String, String)>, u64)>)| (m.0@, entries_view(m.1@)))
}

/// The index of the first persisted counter called `name`.
pub open spec fn name_index(p: Seq<PersistedView>, name: Seq<char>) -> Option<int>
    decreases p.len(),
{
    if p.len() == 0 {
        None
    } else {
        match name_index(p.drop_last(), name) {
            Some(i) => Some(i),
            None => if p.last().0 == name {
                Some(p.len() - 1)
            } else {
                None
            },
        }
    }
}

/// What the search for a name finds.
pub proof fn lemma_name_index(p: Seq<PersistedView>, name: Seq<char>)
    ensures
        match name_index(p, name) {
            Some(i) => 0 <= i < p.len() && p[i].0 == name && forall|j: int| 0 <= j < i ==> #[trigger] p[j].0 != name,
            None => forall|j: int| 0 <= j < p.len() ==> #[trigger] p[j].0 != name,
        },
    decreases p.len(),
{
    if p.len() > 0 {
        lemma_name_index(p.drop_last(), name);
        assert forall|j: int| 0 <= j < p.len() - 1 implies p.drop_last()[j] == p[j] by {}
    }
}

/// The counts after storing the first `n` persisted counts in turn.
pub open spec fn stored_all(counts: Seq<CountView>, entries: Seq<CountView>, n: int) -> Seq<CountView>
    decreases n,
{
    if n <= 0 {
        counts
    } else {
        let prev = stored_all(counts, entries, n - 1);
        stored(prev, entries[n - 1].0, entries[n - 1].1)
    }
}

/// Takes the first persisted counter called `name` out of `p` and stores
/// its counts into `counts`; both are kept where there is none.
pub open spec fn extracted(p: Seq<PersistedView>, name: Seq<char>, counts: Seq<CountView>) -> (Seq<PersistedView>, Seq<CountView>) {
    match name_index(p, name) {
        Some(i) => (p.remove(i), stored_all(counts, p[i].1, p[i].1.len() as int)),
        None => (p, counts),
    }
}

/// The counts after applying persisted counters, counter by counter.
pub open spec fn applied(m: MetricsView, p: Seq<PersistedView>) -> MetricsView {
    let (p1, requests) = extracted(p, "requests"@, m.requests);
    let (p2, spam) = extracted(p1, "classifications_spam"@, m.spam);
    let (p3, valid) = extracted(p2, "classifications_valid"@, m.valid);
    let (p4, asn_known) = extracted(p3, "asns_known"@, m.asn_known);
    let (_, asn_hidden) = extracted(p4, "asns_hidden"@, m.asn_hidden);
    MetricsView { requests, spam, valid, asn_known, asn_hidden }
}

/// The persisted form of counts.
pub open spec fn persisted_of(m: MetricsView) -> Seq<PersistedView> {
    seq![
        ("requests"@, m.requests),
        ("classifications_spam"@, m.spam),
        ("classifications_valid"@, m.valid),
        ("asns_known"@, m.asn_known),
        ("asns_hidden"@, m.asn_hidden),
    ]
}

/// The labels of name and value pairs.
fn labels_of(pairs: &Vec<(String, String)>) -> (r: Vec<MetricLabel>)
    ensures
        labels_view(r@) == pairs_view(pairs@),
{
    let mut out: Vec<MetricLabel> = Vec::new();
    let mut i: usize = 0;
    while i < pairs.len()
        invariant
            i <= pairs@.len(),
            labels_view(out@) == pairs_view(pairs@).take(i as int),
        decreases pairs@.len() - i,
    {
        let ghost before = out@;
        out.push(MetricLabel(copy_string(&pairs[i].0), copy_string(&pairs[i].1)));
        assert(labels_view(out@) =~= labels_view(before).push((pairs@[i as int].0@, pairs@[i as int].1@)));
        i += 1;
        assert(labels_view(out@) =~= pairs_view(pairs@).take(i as int));
    }
    assert(pairs_view(pairs@).take(i as int) =~= pairs_view(pairs@));
    out
}

/// The index of the first persisted counter called `name`.
fn find_persisted(persisted: &PersistedMetrics, name: &str) -> (r: Option<usize>)
    ensures
        match r {
            Some(i) => name_index(persisted_view(persisted@), name@) == Some(i as int) && i < persisted@.len(),
            None => name_index(persisted_view(persisted@), name@) is None,
        },
{
    let ghost p = persisted_view(persisted@);
    proof {
        lemma_name_index(p, name@);
    }
    let mut i: usize = 0;
    while i < persisted.len()
        invariant
            i <= persisted@.len(),
            p == persisted_view(persisted@),
            forall|j: int| 0 <= j < i ==> #[trigger] p[j].0 != name@,
            match name_index(p, name@) {
                Some(k) => 0 <= k < p.len() && p[k].0 == name@ && forall|j: int| 0 <= j < k ==> #[trigger] p[j].0 != name@,
                None => forall|j: int| 0 <= j < p.len() ==> #[trigger] p[j].0 != name@,
            },
        decreases persisted@.len() - i,
    {
        if str_eq(persisted[i].0.as_str(), name) {
            assert(p[i as int].0 == name@);
            return Some(i);
        }
        i += 1;
    }
    None
}

/// Takes the first persisted counter with the counter's name out of
/// `persisted`, and sets the counter's counts from it.
pub fn extract_persisted_metric(map: &mut NamedHashMap, persisted: &mut PersistedMetrics)
    requires
        old(map).wf(),
    ensures
        final(map).wf(),
        final(map).name == old(map).name,
        final(map).desc == old(map).desc,
        (persisted_view(final(persisted)@), final(map).counts()) == extracted(
            persisted_view(old(persisted)@),
            old(map).name@,
            old(map).counts(),
        ),
{
    let ghost p = persisted_view(persisted@);
    let ghost name = map.name@;
    let i = match find_persisted(persisted, map.name.as_str()) {
        Some(i) => i,
        None => {
            return;
        },
    };
    let (_, ms) = persisted.remove(i);
    assert(persisted_view(persisted@) =~= p.remove(i as int));
    let ghost counts0 = map.counts();
    let mut k: usize = 0;
    while k < ms.len()
        invariant
            k <= ms@.len(),
            map.wf(),
            map.name@ == name,
            map.name == old(map).name,
            map.desc == old(map).desc,
            map.counts() == stored_all(counts0, entries_view(ms@), k as int),
        decreases ms@.len() - k,
    {
        let labels = labels_of(&ms[k].0);
        map.insert(labels, ms[k].1);
        k += 1;
    }
}

/// Sets the counters' counts from persisted counters, each from the first
/// one with its name; those are taken out of `persisted`.
pub fn apply_persisted_metrics(metrics: &mut Metrics, persisted: PersistedMetrics)
    requires
        old(metrics).wf(),
    ensures
        final(metrics).wf(),
        final(metrics).persist_path_spec() == old(metrics).persist_path_spec(),
        final(metrics).counts() == applied(old(metrics).counts(), persisted_view(persisted@)),
{
    let mut persisted = persisted;
    extract_persisted_metric(&mut metrics.request_counter, &mut persisted);
    extract_persisted_metric(&mut metrics.classification_spam_counter, &mut persisted);
    extract_persisted_metric(&mut metrics.classification_valid_counter, &mut persisted);
    extract_persisted_metric(&mut metrics.asn_known_counter, &mut persisted);
    extract_persisted_metric(&mut metrics.asn_hidden_counter, &mut persisted);
}

/// The label pairs of labels.
fn pairs_of(labels: &Vec<MetricLabel>) -> (r: Vec<(String, String)>)
    ensures
        pairs_view(r@) == labels_view(labels@),
{
    let mut out: Vec<(String, String)> = Vec::new();
    let mut i: usize = 0;
    while i < labels.len()
        invariant
            i <= labels@.len(),
            pairs_view(out@) == labels_view(labels@).take(i as int),
        decreases labels@.len() - i,
    {
        let ghost before = out@;
        out.push((copy_string(&labels[i].0), copy_string(&labels[i].1)));
        assert(pairs_view(out@) =~= pairs_view(before).push(labels@[i as int]@));
        i += 1;
        assert(pairs_view(out@) =~= labels_view(labels@).take(i as int));
    }
    assert(labels_view(labels@).take(i as int) =~= labels_view(labels@));
    out
}

/// Appends a counter to `persisted`.
pub fn metrics_into_persisted(persisted: &mut PersistedMetrics, metric: NamedHashMap)
    ensures
        persisted_view(final(persisted)@) == persisted_view(old(persisted)@).push((metric.name@, metric.counts())),
{
    let mut entries: Vec<(Vec<(String, String)>, u64)> = Vec::new();
    let mut i: usize = 0;
    while i < metric.inner.len()
        invariant
            i <= metric.inner@.len(),
            entries_view(entries@) == metric.counts().take(i as int),
        decreases metric.inner@.len() - i,
    {
        let ghost before = entries@;
        entries.push((pairs_of(&metric.inner[i].0), metric.inner[i].1));
        assert(entries_view(entries@) =~= entries_view(before).push(metric.counts()[i as int]));
        i += 1;
        assert(entries_view(entries@) =~= metric.counts().take(i as int));
    }
    assert(metric.counts().take(i as int) =~= metric.counts());
    let ghost before = persisted@;
    persisted.push((copy_string(&metric.name), entries));
    assert(persisted_view(persisted@) =~= persisted_view(before).push((metric.name@, metric.counts())));
}

/// All the counters as persisted counters, in order.
pub fn persisted_metrics(metrics: Metrics) -> (r: PersistedMetrics)
    requires
        metrics.wf(),
    ensures
        persisted_view(r@) == persisted_of(metrics.counts()),
{
    let mut persisted: PersistedMetrics = Vec::new();
    metrics_into_persisted(&mut persisted, metrics.request_counter);
    metrics_into_persisted(&mut persisted, metrics.classification_spam_counter);
    metrics_into_persisted(&mut persisted, metrics.classification_valid_counter);
    metrics_into_persisted(&mut persisted, metrics.asn_known_counter);
    metrics_into_persisted(&mut persisted, metrics.asn_hidden_counter);
    assert(persisted_view(persisted@) =~= persisted_of(metrics.counts()));
    persisted
}

/// Storing distinct counts one by one into no counts gives them back.
pub proof fn lemma_stored_all_fresh(c: Seq<CountView>, n: int)
    requires
        keys_distinct(c),
        0 <= n <= c.len(),
    ensures
        stored_all(Seq::empty(), c, n) == c.take(n),
    decreases n,
{
    if n > 0 {
        lemma_stored_all_fresh(c, n - 1);
        let prev = c.take(n - 1);
        lemma_index_of(prev, c[n - 1].0);
        if let Some(i) = index_of(prev, c[n - 1].0) {
            assert(prev[i] == c[i]);
        }
        assert(prev.push((c[n - 1].0, c[n - 1].1)) =~= c.take(n));
    }
}

/// Persisting well-formed metrics and loading them back into counters with
/// no counts gives the same counts.
pub proof fn lemma_metrics_persist_round_trip(m: &Metrics)
    requires
        m.wf(),
    ensures
        applied(no_counts(), persisted_of(m.counts())) == m.counts(),
{
    m.lemma_wf_keys_distinct();
    lemma_persist_round_trip(m.counts());
}

/// Persisting counters and loading them back into counters with no counts
/// gives the same counts.
pub proof fn lemma_persist_round_trip(m: MetricsView)
    requires
        keys_distinct(m.requests),
        keys_distinct(m.spam),
        keys_distinct(m.valid),
        keys_distinct(m.asn_known),
        keys_distinct(m.asn_hidden),
    ensures
        applied(no_counts(), persisted_of(m)) == m,
{
    reveal_strlit("requests");
    reveal_strlit("classifications_spam");
    reveal_strlit("classifications_valid");
    reveal_strlit("asns_known");
    reveal_strlit("asns_hidden");
    let p0 = persisted_of(m);
    assert(name_index(p0, "requests"@) == Some(0int)) by {
        reveal_with_fuel(name_index, 6);
        assert(p0.drop_last().drop_last().drop_last().drop_last().drop_last().len() == 0);
    }
    let p1 = p0.remove(0);
    assert(p1 =~= seq![
        ("classifications_spam"@, m.spam),
        ("classifications_valid"@, m.valid),
        ("asns_known"@, m.asn_known),
        ("asns_hidden"@, m.asn_hidden),
    ]);
    assert(name_index(p1, "classifications_spam"@) == Some(0int)) by {
        reveal_with_fuel(name_index, 5);
    }
    let p2 = p1.remove(0);
    assert(p2 =~= seq![("classifications_valid"@, m.valid), ("asns_known"@, m.asn_known), ("asns_hidden"@, m.asn_hidden)]);
    assert(name_index(p2, "classifications_valid"@) == Some(0int)) by {
        reveal_with_fuel(name_index, 4);
    }
    let p3 = p2.remove(0);
    assert(p3 =~= seq![("asns_known"@, m.asn_known), ("asns_hidden"@, m.asn_hidden)]);
    assert(name_index(p3, "asns_known"@) == Some(0int)) by {
        reveal_with_fuel(name_index, 3);
    }
    let p4 = p3.remove(0);
    assert(p4 =~= seq![("asns_hidden"@, m.asn_hidden)]);
    assert(name_index(p4, "asns_hidden"@) == Some(0int)) by {
        reveal_with_fuel(name_index, 2);
    }
    lemma_stored_all_fresh(m.requests, m.requests.len() as int);
    lemma_stored_all_fresh(m.spam, m.spam.len() as int);
    lemma_stored_all_fresh(m.valid, m.valid.len() as int);
    lemma_stored_all_fresh(m.asn_known, m.asn_known.len() as int);
    lemma_stored_all_fresh(m.asn_hidden, m.asn_hidden.len() as int);
    assert(m.requests.take(m.requests.len() as int) =~= m.requests);
    assert(m.spam.take(m.spam.len() as int) =~= m.spam);
    assert(m.valid.take(m.valid.len() as int) =~= m.valid);
    assert(m.asn_known.take(m.asn_known.len() as int) =~= m.asn_known);
    assert(m.asn_hidden.take(m.asn_hidden.len() as int) =~= m.asn_hidden);
}

} // verus!
