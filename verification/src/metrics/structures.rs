//! Counters keyed by label sets.
use vstd::prelude::*;
use crate::config::document::str_eq;
use crate::config::values::copy_string;

verus! {

/// A label of a metric: its name and its value.
#[derive(Debug)]
pub struct MetricLabel(pub String, pub String);

/// A label as a pair of character sequences.
pub type LabelView = (Seq<char>, Seq<char>);

impl View for MetricLabel {
    type V = LabelView;

    open spec fn view(&self) -> LabelView {
        (self.0@, self.1@)
    }
}

/// The views of a sequence of labels.
pub open spec fn labels_view(labels: Seq<MetricLabel>) -> Seq<LabelView> {
    labels.map_values(|l: MetricLabel| l@)
}

/// A metric's name with a set of labels: what a count is kept for.
#[derive(Debug)]
pub struct MetricKey {
    pub name: String,
    pub labels: Vec<MetricLabel>,
}

/// A count for one label set.
pub type CountView = (Seq<LabelView>, u64);

/// A counter metric: its name, its description, and a count for each label
/// set, in the order the label sets were first counted; no label set occurs
/// twice.
#[derive(Debug)]
pub struct NamedHashMap {
    pub inner: Vec<(Vec<MetricLabel>, u64)>,
    pub name: String,
    pub desc: &'static str,
}

/// The counts of a sequence of entries.
pub open spec fn counts_view(entries: Seq<(Vec<MetricLabel>, u64)>) -> Seq<CountView> {
    entries.map_values(|e: (Vec<MetricLabel>, u64)| (labels_view(e.0@), e.1))
}

/// Whether no label set occurs twice.
pub open spec fn keys_distinct(counts: Seq<CountView>) -> bool {
    forall|i: int, j: int| 0 <= i < j < counts.len() ==> #[trigger] counts[i].0 != #[trigger] counts[j].0
}

/// The index of the count for `key`.
pub open spec fn index_of(counts: Seq<CountView>, key: Seq<LabelView>) -> Option<int>
    decreases counts.len(),
{
    if counts.len() == 0 {
        None
    } else {
        match index_of(counts.drop_last(), key) {
            Some(i) => Some(i),
            None => if counts.last().0 == key {
                Some(counts.len() - 1)
            } else {
                None
            },
        }
    }
}

/// The count for `key`: zero where there is none.
pub open spec fn count_of(counts: Seq<CountView>, key: Seq<LabelView>) -> u64 {
    match index_of(counts, key) {
        Some(i) => counts[i].1,
        None => 0,
    }
}

/// `n + 1`, wrapping to zero past the largest `u64`.
pub open spec fn next_count(n: u64) -> u64 {
    if n == u64::MAX {
        0
    } else {
        (n + 1) as u64
    }
}

/// The counts after one more count for `key`: its count goes up by one
/// (wrapping), or it is added at the end with a count of one.
pub open spec fn bumped(counts: Seq<CountView>, key: Seq<LabelView>) -> Seq<CountView> {
    match index_of(counts, key) {
        Some(i) => counts.update(i, (key, next_count(counts[i].1))),
        None => counts.push((key, 1u64)),
    }
}

/// The counts after setting the count for `key` to `value`: in place where
/// it has one, else added at the end.
pub open spec fn stored(counts: Seq<CountView>, key: Seq<LabelView>, value: u64) -> Seq<CountView> {
    match index_of(counts, key) {
        Some(i) => counts.update(i, (key, value)),
        None => counts.push((key, value)),
    }
}

impl NamedHashMap {
    /// The counts.
    pub open spec fn counts(&self) -> Seq<CountView> {
        counts_view(self.inner@)
    }

    /// Whether no label set occurs twice.
    pub open spec fn wf(&self) -> bool {
        keys_distinct(self.counts())
    }

    /// An empty counter.
    pub fn new(name: &'static str, desc: &'static str) -> (r: NamedHashMap)
        ensures
            r.wf(),
            r.counts() == Seq::<CountView>::empty(),
            r.name@ == name@,
            r.desc == desc,
    {
        let r = NamedHashMap { inner: Vec::new(), name: name.to_owned(), desc };
        assert(r.counts() =~= Seq::<CountView>::empty());
        r
    }

    /// An empty counter with no name and no description.
    pub fn empty() -> (r: NamedHashMap)
        ensures
            r.wf(),
            r.counts() == Seq::<CountView>::empty(),
            r.name@ == Seq::<char>::empty(),
            r.desc@ == Seq::<char>::empty(),
    {
        proof {
            reveal_strlit("");
        }
        NamedHashMap::new("", "")
    }

    /// Whether there are no counts.
    pub fn is_empty(&self) -> (r: bool)
        ensures
            r == (self.counts().len() == 0),
    {
        self.inner.len() == 0
    }

    /// The index of the count for `labels`.
    pub fn find(&self, labels: &Vec<MetricLabel>) -> (r: Option<usize>)
        ensures
            match r {
                Some(i) => index_of(self.counts(), labels_view(labels@)) == Some(i as int) && i < self.inner@.len(),
                None => index_of(self.counts(), labels_view(labels@)) is None,
            },
    {
        let ghost key = labels_view(labels@);
        let mut i: usize = 0;
        while i < self.inner.len()
            invariant
                i <= self.inner@.len(),
                key == labels_view(labels@),
                index_of(self.counts().take(i as int), key) is None,
            decreases self.inner@.len() - i,
        {
            assert(self.counts().take(i as int + 1).drop_last() =~= self.counts().take(i as int));
            if labels_eq(&self.inner[i].0, labels) {
                proof {
                    lemma_index_prefix(self.counts(), key, i as int + 1);
                }
                return Some(i);
            }
            i += 1;
        }
        assert(self.counts().take(i as int) =~= self.counts());
        None
    }

    /// Counts one more for `labels`.
    pub fn increment(&mut self, labels: Vec<MetricLabel>)
        requires
            old(self).wf(),
        ensures
            final(self).wf(),
            final(self).counts() == bumped(old(self).counts(), labels_view(labels@)),
            final(self).name == old(self).name,
            final(self).desc == old(self).desc,
    {
        let ghost key = labels_view(labels@);
        proof {
            lemma_index_of(self.counts(), key);
        }
        match self.find(&labels) {
            Some(i) => {
                let n = self.inner[i].1;
                let next = n.wrapping_add(1);
                let ghost before = self.counts();
                let entry = (take_labels(&mut self.inner, i), next);
                self.inner.set(i, entry);
                assert(self.counts() =~= before.update(i as int, (key, next_count(n))));
            },
            None => {
                let ghost before = self.counts();
                self.inner.push((labels, 1));
                assert(self.counts() =~= before.push((key, 1u64)));
            },
        }
    }

    /// Sets the count for `labels` to `value`.
    pub fn insert(&mut self, labels: Vec<MetricLabel>, value: u64)
        requires
            old(self).wf(),
        ensures
            final(self).wf(),
            final(self).counts() == stored(old(self).counts(), labels_view(labels@), value),
            final(self).name == old(self).name,
            final(self).desc == old(self).desc,
    {
        let ghost key = labels_view(labels@);
        proof {
            lemma_index_of(self.counts(), key);
        }
        match self.find(&labels) {
            Some(i) => {
                let ghost before = self.counts();
                self.inner.set(i, (labels, value));
                assert(self.counts() =~= before.update(i as int, (key, value)));
            },
            None => {
                let ghost before = self.counts();
                self.inner.push((labels, value));
                assert(self.counts() =~= before.push((key, value)));
            },
        }
    }
}

/// The labels of the entry at `i`, moved out and replaced by none.
fn take_labels(inner: &mut Vec<(Vec<MetricLabel>, u64)>, i: usize) -> (r: Vec<MetricLabel>)
    requires
        i < old(inner)@.len(),
    ensures
        r@ == old(inner)@[i as int].0@,
        final(inner)@.len() == old(inner)@.len(),
        forall|j: int| 0 <= j < old(inner)@.len() && j != i ==> final(inner)@[j] == old(inner)@[j],
{
    let n = inner[i].1;
    let mut entry = (Vec::new(), n);
    std::mem::swap(&mut entry, &mut inner[i]);
    entry.0
}

/// What the search for a key finds.
pub proof fn lemma_index_of(counts: Seq<CountView>, key: Seq<LabelView>)
    ensures
        match index_of(counts, key) {
            Some(i) => 0 <= i < counts.len() && counts[i].0 == key,
            None => forall|j: int| 0 <= j < counts.len() ==> #[trigger] counts[j].0 != key,
        },
    decreases counts.len(),
{
    if counts.len() > 0 {
        lemma_index_of(counts.drop_last(), key);
        assert forall|j: int| 0 <= j < counts.len() - 1 implies counts.drop_last()[j] == counts[j] by {}
    }
}

/// A match in a prefix is the match in the whole sequence.
pub proof fn lemma_index_prefix(counts: Seq<CountView>, key: Seq<LabelView>, n: int)
    requires
        0 <= n <= counts.len(),
        index_of(counts.take(n), key) is Some,
    ensures
        index_of(counts, key) == index_of(counts.take(n), key),
    decreases counts.len() - n,
{
    if n < counts.len() {
        assert(counts.take(n + 1).drop_last() =~= counts.take(n));
        lemma_index_prefix(counts, key, n + 1);
    } else {
        assert(counts.take(n) =~= counts);
    }
}

/// Whether two label sequences hold the same labels.
pub fn labels_eq(a: &Vec<MetricLabel>, b: &Vec<MetricLabel>) -> (r: bool)
    ensures
        r == (labels_view(a@) == labels_view(b@)),
{
    if a.len() != b.len() {
        assert(labels_view(a@).len() != labels_view(b@).len());
        return false;
    }
    let mut i: usize = 0;
    while i < a.len()
        invariant
            i <= a@.len(),
            a@.len() == b@.len(),
            forall|j: int| 0 <= j < i ==> #[trigger] a@[j]@ == b@[j]@,
        decreases a@.len() - i,
    {
        if !(str_eq(a[i].0.as_str(), b[i].0.as_str()) && str_eq(a[i].1.as_str(), b[i].1.as_str())) {
            assert(labels_view(a@)[i as int] != labels_view(b@)[i as int]);
            return false;
        }
        i += 1;
    }
    assert(labels_view(a@) =~= labels_view(b@));
    true
}

/// A copy of a label.
pub fn copy_label(l: &MetricLabel) -> (r: MetricLabel)
    ensures
        r@ == l@,
{
    MetricLabel(copy_string(&l.0), copy_string(&l.1))
}

/// A copy of a label sequence.
pub fn copy_labels(v: &Vec<MetricLabel>) -> (r: Vec<MetricLabel>)
    ensures
        labels_view(r@) == labels_view(v@),
{
    let mut out: Vec<MetricLabel> = Vec::new();
    let mut i: usize = 0;
    while i < v.len()
        invariant
            i <= v@.len(),
            labels_view(out@) == labels_view(v@).take(i as int),
        decreases v@.len() - i,
    {
        let ghost before = out@;
        out.push(copy_label(&v[i]));
        assert(labels_view(out@) =~= labels_view(before).push(v@[i as int]@));
        i += 1;
        assert(labels_view(out@) =~= labels_view(v@).take(i as int));
    }
    assert(labels_view(v@).take(i as int) =~= labels_view(v@));
    out
}

/// With distinct keys, the search for a key that is present finds it.
pub proof fn lemma_index_unique(counts: Seq<CountView>, i: int)
    requires
        keys_distinct(counts),
        0 <= i < counts.len(),
    ensures
        index_of(counts, counts[i].0) == Some(i),
{
    lemma_index_of(counts, counts[i].0);
}

/// Counting one more for a label set raises its count by one (wrapping to
/// zero past the largest `u64`), keeps the count of every other label set,
/// and keeps the label sets distinct.
pub proof fn lemma_bumped_counts(counts: Seq<CountView>, key: Seq<LabelView>, other: Seq<LabelView>)
    requires
        keys_distinct(counts),
    ensures
        keys_distinct(bumped(counts, key)),
        count_of(bumped(counts, key), key) == next_count(count_of(counts, key)),
        other != key ==> count_of(bumped(counts, key), other) == count_of(counts, other),
{
    lemma_index_of(counts, key);
    lemma_index_of(counts, other);
    let b = bumped(counts, key);
    match index_of(counts, key) {
        Some(i) => {
            assert(keys_distinct(b)) by {
                assert forall|x: int, y: int| 0 <= x < y < b.len() implies #[trigger] b[x].0 != #[trigger] b[y].0 by {
                    assert(b[x].0 == counts[x].0);
                    assert(b[y].0 == counts[y].0);
                }
            }
            lemma_index_unique(b, i);
            if other != key {
                lemma_index_of(b, other);
                match index_of(counts, other) {
                    Some(j) => {
                        assert(b[j] == counts[j]);
                        lemma_index_unique(b, j);
                    },
                    None => {
                        match index_of(b, other) {
                            Some(j) => {
                                assert(b[j].0 == counts[j].0);
                            },
                            None => {},
                        }
                    },
                }
            }
        },
        None => {
            assert(keys_distinct(b)) by {
                assert forall|x: int, y: int| 0 <= x < y < b.len() implies #[trigger] b[x].0 != #[trigger] b[y].0 by {
                    if y == counts.len() {
                        assert(b[x].0 == counts[x].0);
                    } else {
                        assert(b[x].0 == counts[x].0);
                        assert(b[y].0 == counts[y].0);
                    }
                }
            }
            lemma_index_unique(b, counts.len() as int);
            if other != key {
                lemma_index_of(b, other);
                match index_of(counts, other) {
                    Some(j) => {
                        assert(b[j] == counts[j]);
                        lemma_index_unique(b, j);
                    },
                    None => {
                        match index_of(b, other) {
                            Some(j) => {
                                if j < counts.len() {
                                    assert(b[j].0 == counts[j].0);
                                }
                            },
                            None => {},
                        }
                    },
                }
            }
        },
    }
}

} // verus!
