//! The metric history and the values it holds.
use vstd::prelude::*;

use crate::keyed::{Entry, KeyedList, keys_of, map_of, pairs_of, lemma_map_of_dom};
use crate::parser::{decode_labels, label_map, DecodeError};
use crate::text::{chars_of, find_char, index_of, views};

verus! {

/// The label-key of a sample line that carries no labels.
pub open spec fn no_labels_key() -> Seq<char> {
    "single-value-with-no-labels"@
}

/// The labels of a series whose sample line carries none.
pub open spec fn no_labels_map() -> Map<Seq<char>, Seq<char>> {
    map![("key"@) => no_labels_key()]
}

/// The kind of a metric, as its `# TYPE` line declares it.
#[derive(Clone, Copy, PartialEq, Eq, Debug, Structural)]
pub enum MetricType {
    Gauge,
    Counter,
    Histogram,
}

/// A sample value as written in the exposition text; it is a float literal.
#[derive(Debug)]
pub struct FloatLiteral {
    pub text: String,
}

impl View for FloatLiteral {
    type V = Seq<char>;

    open spec fn view(&self) -> Seq<char> {
        self.text@
    }
}

/// A single gauge or counter reading.
#[derive(Debug)]
pub struct SingleValueSample {
    pub timestamp: u64,
    pub value: FloatLiteral,
}

/// One histogram bucket: its upper bound (the `le` label) and its cumulative count.
#[derive(Debug)]
pub struct Bucket {
    pub name: String,
    pub value: u64,
}

impl View for Bucket {
    type V = (Seq<char>, u64);

    open spec fn view(&self) -> (Seq<char>, u64) {
        (self.name@, self.value)
    }
}

impl Bucket {
    pub fn new(name: String, value: u64) -> (r: Bucket)
        ensures
            r@ == (name@, value),
    {
        Bucket { name, value }
    }
}

impl PartialEq for Bucket {
    fn eq(&self, other: &Bucket) -> (r: bool)
        ensures
            r == (self@ == other@),
    {
        self.name == other.name && self.value == other.value
    }
}

impl vstd::std_specs::cmp::PartialEqSpecImpl for Bucket {
    open spec fn obeys_eq_spec() -> bool {
        true
    }

    open spec fn eq_spec(&self, other: &Bucket) -> bool {
        self@ == other@
    }
}

/// The views of a list of buckets.
pub open spec fn buckets_view(bs: Seq<Bucket>) -> Seq<(Seq<char>, u64)> {
    bs.map_values(|b: Bucket| b@)
}

/// A histogram reading for one label set.
#[derive(Debug)]
pub struct HistogramSample {
    pub timestamp: u64,
    pub bucket_values: Vec<Bucket>,
    pub sum: FloatLiteral,
    pub count: u64,
}

#[derive(Debug)]
pub enum Sample {
    GaugeSample(SingleValueSample),
    CounterSample(SingleValueSample),
    HistogramSample(HistogramSample),
}

/// What a sample holds.
pub enum SampleView {
    Gauge { timestamp: u64, value: Seq<char> },
    Counter { timestamp: u64, value: Seq<char> },
    Histogram { timestamp: u64, buckets: Seq<(Seq<char>, u64)>, sum: Seq<char>, count: u64 },
}

impl View for Sample {
    type V = SampleView;

    open spec fn view(&self) -> SampleView {
        match self {
            Sample::GaugeSample(s) => SampleView::Gauge { timestamp: s.timestamp, value: s.value@ },
            Sample::CounterSample(s) => SampleView::Counter {
                timestamp: s.timestamp,
                value: s.value@,
            },
            Sample::HistogramSample(h) => SampleView::Histogram {
                timestamp: h.timestamp,
                buckets: buckets_view(h.bucket_values@),
                sum: h.sum@,
                count: h.count,
            },
        }
    }
}

/// The samples of one label set of a metric, oldest first.
#[derive(Debug)]
pub struct TimeSeries {
    pub labels: KeyedList<String>,
    pub samples: Vec<Sample>,
}

pub struct SeriesView {
    pub labels: Map<Seq<char>, Seq<char>>,
    pub samples: Seq<SampleView>,
}

pub open spec fn samples_view(ss: Seq<Sample>) -> Seq<SampleView> {
    ss.map_values(|s: Sample| s@)
}

impl View for TimeSeries {
    type V = SeriesView;

    open spec fn view(&self) -> SeriesView {
        SeriesView { labels: self.labels@, samples: samples_view(self.samples@) }
    }
}

/// Name and description of a metric, from its `# HELP` line.
#[derive(Debug)]
pub struct MetricDetails {
    pub name: String,
    pub docstring: String,
}

/// A metric of the history: its details, its type and one series per label-key.
#[derive(Debug)]
pub struct Metric {
    pub details: MetricDetails,
    pub metric_type: MetricType,
    pub time_series: KeyedList<TimeSeries>,
}

pub struct MetricView {
    pub name: Seq<char>,
    pub docstring: Seq<char>,
    pub metric_type: MetricType,
    pub series: Map<Seq<char>, SeriesView>,
}

impl View for Metric {
    type V = MetricView;

    open spec fn view(&self) -> MetricView {
        MetricView {
            name: self.details.name@,
            docstring: self.details.docstring@,
            metric_type: self.metric_type,
            series: self.time_series@,
        }
    }
}

/// What one scrape reported for one metric: a sample per label-key.
#[derive(Debug)]
pub struct SingleScrapeMetric {
    pub name: String,
    pub docstring: String,
    pub metric_type: MetricType,
    pub value_per_labels: KeyedList<Sample>,
}

pub struct ScrapeView {
    pub name: Seq<char>,
    pub docstring: Seq<char>,
    pub metric_type: MetricType,
    pub values: Map<Seq<char>, SampleView>,
}

impl View for SingleScrapeMetric {
    type V = ScrapeView;

    open spec fn view(&self) -> ScrapeView {
        ScrapeView {
            name: self.name@,
            docstring: self.docstring@,
            metric_type: self.metric_type,
            values: self.value_per_labels@,
        }
    }
}

/// The labels of the series that a label-key names.
pub open spec fn labels_of_key(k: Seq<char>) -> Map<Seq<char>, Seq<char>> {
    if index_of(k, '=') >= 0 {
        label_map(k)
    } else {
        no_labels_map()
    }
}

/// A series seeded with its first sample.
pub open spec fn new_series(k: Seq<char>, s: SampleView) -> SeriesView {
    SeriesView { labels: labels_of_key(k), samples: seq![s] }
}

/// `ts` with `s` appended.
pub open spec fn appended(ts: SeriesView, s: SampleView) -> SeriesView {
    SeriesView { labels: ts.labels, samples: ts.samples.push(s) }
}

/// The series after one scrape: each reported label-key gets its sample appended, to the
/// series of that key or to a new one; series not reported stay as they are.
pub open spec fn merged_series(
    series: Map<Seq<char>, SeriesView>,
    values: Map<Seq<char>, SampleView>,
) -> Map<Seq<char>, SeriesView> {
    Map::new(
        |k: Seq<char>| series.contains_key(k) || values.contains_key(k),
        |k: Seq<char>|
            if values.contains_key(k) {
                if series.contains_key(k) {
                    appended(series[k], values[k])
                } else {
                    new_series(k, values[k])
                }
            } else {
                series[k]
            },
    )
}

/// The metric that a first scrape of a name creates.
pub open spec fn metric_from_scrape(s: ScrapeView) -> MetricView {
    MetricView {
        name: s.name,
        docstring: s.docstring,
        metric_type: s.metric_type,
        series: merged_series(Map::empty(), s.values),
    }
}

/// `m` with the samples of `s` merged into its series.
pub open spec fn metric_updated(m: MetricView, s: ScrapeView) -> MetricView {
    MetricView { series: merged_series(m.series, s.values), ..m }
}

/// The history after merging one scrape of one metric. A scrape whose type differs from the
/// type the history holds for that name leaves the history as it is.
pub open spec fn merged_history(h: Map<Seq<char>, MetricView>, s: ScrapeView) -> Map<
    Seq<char>,
    MetricView,
> {
    if h.contains_key(s.name) {
        if h[s.name].metric_type == s.metric_type {
            h.insert(s.name, metric_updated(h[s.name], s))
        } else {
            h
        }
    } else {
        h.insert(s.name, metric_from_scrape(s))
    }
}

/// Whether merging `s` into `h` is refused because the type of the metric changed.
pub open spec fn type_changed(h: Map<Seq<char>, MetricView>, s: ScrapeView) -> bool {
    h.contains_key(s.name) && h[s.name].metric_type != s.metric_type
}

/// One step of `merged_series`, for a key that the earlier values did not hold.
proof fn lemma_merged_series_step(
    series: Map<Seq<char>, SeriesView>,
    values: Map<Seq<char>, SampleView>,
    k: Seq<char>,
    s: SampleView,
)
    requires
        !values.contains_key(k),
    ensures
        merged_series(series, values.insert(k, s)) == ({
            let cur = merged_series(series, values);
            if cur.contains_key(k) {
                cur.insert(k, appended(cur[k], s))
            } else {
                cur.insert(k, new_series(k, s))
            }
        }),
{
    let cur = merged_series(series, values);
    let next = merged_series(series, values.insert(k, s));
    if cur.contains_key(k) {
        assert(next =~= cur.insert(k, appended(cur[k], s)));
    } else {
        assert(next =~= cur.insert(k, new_series(k, s)));
    }
}

impl TimeSeries {
    /// A series for label-key `key`, seeded with `sample`.
    pub fn seeded(key: &String, sample: Sample) -> (r: TimeSeries)
        ensures
            r@ == new_series(key@, sample@),
    {
        let cs = chars_of(key.as_str());
        let labels = if find_char(&cs, '=').is_some() {
            decode_labels(key.as_str())
        } else {
            let mut m: KeyedList<String> = KeyedList::new();
            m.insert(String::from_str("key"), String::from_str("single-value-with-no-labels"));
            assert(m@ =~= no_labels_map());
            m
        };
        let mut samples: Vec<Sample> = Vec::new();
        samples.push(sample);
        let r = TimeSeries { labels, samples };
        assert(samples_view(r.samples@) =~= seq![sample@]);
        r
    }

    fn placeholder() -> (r: TimeSeries) {
        TimeSeries { labels: KeyedList::new(), samples: Vec::new() }
    }
}

impl Metric {
    fn placeholder() -> (r: Metric) {
        Metric {
            details: MetricDetails { name: String::new(), docstring: String::new() },
            metric_type: MetricType::Gauge,
            time_series: KeyedList::new(),
        }
    }

    /// Appends the sample of each label-key to its series, creating the series of a new key.
    pub fn update_time_series(&mut self, value_per_labels: KeyedList<Sample>)
        ensures
            final(self)@ == (MetricView {
                series: merged_series(old(self)@.series, value_per_labels@),
                ..old(self)@
            }),
    {
        let ghost start = self.time_series@;
        let entries = value_per_labels.into_entries();
        let ghost ps = pairs_of(entries@);
        assert(map_of(ps.subrange(0, 0)) =~= Map::<Seq<char>, SampleView>::empty());
        assert(merged_series(start, Map::empty()) =~= start);
        for e in it: entries
            invariant
                ps == pairs_of(it.seq()),
                keys_of(ps).no_duplicates(),
                self.time_series@ == merged_series(start, map_of(ps.subrange(0, it.index() as int))),
                self.details == old(self).details,
                self.metric_type == old(self).metric_type,
        {
            let ghost i = it.index() as int;
            let Entry { key, value } = e;
            let ghost k = key@;
            let ghost w = value@;
            let ghost pre = map_of(ps.subrange(0, i));
            assert(ps[i] == (k, w));
            assert(ps.subrange(0, i + 1).drop_last() =~= ps.subrange(0, i));
            proof {
                lemma_map_of_dom(ps.subrange(0, i));
                if keys_of(ps.subrange(0, i)).contains(k) {
                    let j = choose|j: int| 0 <= j < i && keys_of(ps.subrange(0, i))[j] == k;
                    assert(keys_of(ps)[j] == keys_of(ps)[i]);
                }
                lemma_merged_series_step(start, pre, k, w);
            }
            assert(map_of(ps.subrange(0, i + 1)) == pre.insert(k, w));
            match self.time_series.position(&key) {
                Some(at) => {
                    let ghost cur = self.time_series@;
                    let mut ts = self.time_series.take_value_at(at, TimeSeries::placeholder());
                    let ghost before = ts.samples@;
                    ts.samples.push(value);
                    assert(samples_view(ts.samples@) =~= samples_view(before).push(w));
                    self.time_series.set_value_at(at, ts);
                    assert(self.time_series@ =~= cur.insert(k, appended(cur[k], w)));
                },
                None => {
                    let ts = TimeSeries::seeded(&key, value);
                    self.time_series.insert(key, ts);
                },
            }
        }
        assert(ps.subrange(0, ps.len() as int) =~= ps);
    }
}

impl SingleScrapeMetric {
    /// The metric that this scrape creates when its name is new to the history.
    pub fn into_metric(self) -> (r: Metric)
        ensures
            r@ == metric_from_scrape(self@),
    {
        let mut metric = Metric {
            details: MetricDetails { name: self.name, docstring: self.docstring },
            metric_type: self.metric_type,
            time_series: KeyedList::new(),
        };
        metric.update_time_series(self.value_per_labels);
        metric
    }
}

/// Every metric seen so far, by name.
#[derive(Debug)]
pub struct MetricHistory {
    pub metrics: KeyedList<Metric>,
}

impl View for MetricHistory {
    type V = Map<Seq<char>, MetricView>;

    open spec fn view(&self) -> Map<Seq<char>, MetricView> {
        self.metrics@
    }
}

impl MetricHistory {
    pub fn new() -> (r: MetricHistory)
        ensures
            r@ == Map::<Seq<char>, MetricView>::empty(),
    {
        MetricHistory { metrics: KeyedList::new() }
    }

    pub fn is_empty(&self) -> (r: bool)
        ensures
            r == (self@.dom().len() == 0),
    {
        self.metrics.is_empty()
    }

    /// The names of all metrics, each once, in no particular order.
    pub fn get_metrics_headers(&self) -> (r: Vec<String>)
        ensures
            views(r@).no_duplicates(),
            views(r@).to_set() == self@.dom(),
    {
        self.metrics.keys()
    }

    pub fn get_metric(&self, metric_name: &str) -> (r: Option<&Metric>)
        ensures
            match r {
                Some(m) => self@.contains_key(metric_name@) && m@ == self@[metric_name@],
                None => !self@.contains_key(metric_name@),
            },
    {
        self.metrics.get(metric_name)
    }

    /// Merges what one scrape reported for one metric. A new name gets a metric of its own;
    /// a known one gets each reported sample appended to the series of its label-key. When the
    /// history holds the name with another type, nothing changes and `TypeChanged` is returned.
    pub fn merge_scrape(&mut self, scrape: SingleScrapeMetric) -> (r: Result<(), DecodeError>)
        ensures
            final(self)@ == merged_history(old(self)@, scrape@),
            r is Err <==> type_changed(old(self)@, scrape@),
            r is Err ==> r == Err::<(), DecodeError>(DecodeError::TypeChanged),
    {
        match self.metrics.position(&scrape.name) {
            Some(at) => {
                let ghost cur = self.metrics@;
                let ghost k = scrape.name@;
                let mut metric = self.metrics.take_value_at(at, Metric::placeholder());
                if metric.metric_type == scrape.metric_type {
                    metric.update_time_series(scrape.value_per_labels);
                    self.metrics.set_value_at(at, metric);
                    assert(self.metrics@ =~= cur.insert(k, metric_updated(cur[k], scrape@)));
                    Ok(())
                } else {
                    self.metrics.set_value_at(at, metric);
                    assert(self.metrics@ =~= cur);
                    Err(DecodeError::TypeChanged)
                }
            },
            None => {
                let name = scrape.name.clone();
                let metric = scrape.into_metric();
                self.metrics.insert(name, metric);
                Ok(())
            },
        }
    }
}

} // verus!
