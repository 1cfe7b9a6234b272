use vstd::prelude::*;

use crate::float_bits::Float64;
use crate::keyed::{entries_view, find_key, index_of_key, insert_position, keys_sorted, lemma_put_sorted_lookup, lemma_sorted_unique, put_entry, put_sorted};
use crate::text::{decimal, usize_to_decimal};

verus! {

broadcast use vstd::string::group_string_axioms;

/// Counters and gauges of a run, by name.
#[derive(Debug, Clone)]
pub struct MetricRegistry {
    counters: Vec<(String, u64)>,
    gauges: Vec<(String, Float64)>,
}

/// The metrics as the contracts see them: entries in name order.
pub struct MetricsView {
    pub counters: Seq<(Seq<char>, u64)>,
    pub gauges: Seq<(Seq<char>, Float64)>,
}

impl View for MetricRegistry {
    type V = MetricsView;

    closed spec fn view(&self) -> MetricsView {
        MetricsView { counters: entries_view(self.counters@), gauges: entries_view(self.gauges@) }
    }
}

/// Names in order, each once.
pub open spec fn metrics_wf(v: MetricsView) -> bool {
    keys_sorted(v.counters) && keys_sorted(v.gauges)
}

/// The value of counter `name`; a counter never incremented is zero.
pub open spec fn counter_value(v: MetricsView, name: Seq<char>) -> u64 {
    match find_key(v.counters, name) {
        Some(i) => v.counters[i].1,
        None => 0,
    }
}

/// The value of gauge `name`, if it was ever set.
pub open spec fn gauge_value(v: MetricsView, name: Seq<char>) -> Option<Float64> {
    match find_key(v.gauges, name) {
        Some(i) => Some(v.gauges[i].1),
        None => None,
    }
}

impl MetricRegistry {
    /// A registry with no metrics.
    pub fn new() -> (r: MetricRegistry)
        ensures
            r@.counters.len() == 0,
            r@.gauges.len() == 0,
            metrics_wf(r@),
    {
        let r = MetricRegistry { counters: Vec::new(), gauges: Vec::new() };
        assert(r@.counters =~= Seq::empty());
        assert(r@.gauges =~= Seq::empty());
        r
    }

    /// Adds `value` to counter `name`.
    pub fn increment(&mut self, name: &str, value: u64)
        requires
            metrics_wf(old(self)@),
            counter_value(old(self)@, name@) + value <= u64::MAX,
        ensures
            metrics_wf(final(self)@),
            final(self)@.counters == put_sorted(old(self)@.counters, name@, (counter_value(old(self)@, name@) + value) as u64),
            final(self)@.gauges == old(self)@.gauges,
    {
        proof {
            lemma_sorted_unique(self@.counters);
        }
        let current = match index_of_key(&self.counters, name) {
            Some(i) => self.counters[i].1,
            None => 0,
        };
        put_entry(&mut self.counters, name.to_owned(), current + value);
    }

    /// Sets gauge `name` to `value`.
    pub fn set_gauge(&mut self, name: &str, value: Float64)
        requires
            metrics_wf(old(self)@),
        ensures
            metrics_wf(final(self)@),
            final(self)@.gauges == put_sorted(old(self)@.gauges, name@, value),
            final(self)@.counters == old(self)@.counters,
    {
        put_entry(&mut self.gauges, name.to_owned(), value);
    }

    /// The value of counter `name`, zero if it was never incremented.
    pub fn counter(&self, name: &str) -> (r: u64)
        requires
            metrics_wf(self@),
        ensures
            r == counter_value(self@, name@),
    {
        proof {
            lemma_sorted_unique(self@.counters);
        }
        match index_of_key(&self.counters, name) {
            Some(i) => self.counters[i].1,
            None => 0,
        }
    }

    /// The value of gauge `name`, if it was ever set.
    pub fn gauge(&self, name: &str) -> (r: Option<Float64>)
        requires
            metrics_wf(self@),
        ensures
            r == gauge_value(self@, name@),
    {
        proof {
            lemma_sorted_unique(self@.gauges);
        }
        match index_of_key(&self.gauges, name) {
            Some(i) => Some(self.gauges[i].1),
            None => None,
        }
    }
}

impl Default for MetricRegistry {
    fn default() -> (r: MetricRegistry)
        ensures
            r@.counters.len() == 0,
            r@.gauges.len() == 0,
            metrics_wf(r@),
    {
        MetricRegistry::new()
    }
}

/// Incrementing a counter adds to what it read before, and leaves the other
/// counters as they were.
pub proof fn increment_adds_to_counter(v: MetricsView, name: Seq<char>, value: u64, other: Seq<char>)
    requires
        metrics_wf(v),
        counter_value(v, name) + value <= u64::MAX,
    ensures
        ({
            let post = MetricsView { counters: put_sorted(v.counters, name, (counter_value(v, name) + value) as u64), gauges: v.gauges };
            &&& counter_value(post, name) == counter_value(v, name) + value
            &&& other != name ==> counter_value(post, other) == counter_value(v, other)
        }),
{
    lemma_put_sorted_lookup(v.counters, name, (counter_value(v, name) + value) as u64, other);
}

/// A gauge reads back the value last set, and setting it leaves the other
/// gauges as they were.
pub proof fn gauge_reads_last_set(v: MetricsView, name: Seq<char>, value: Float64, other: Seq<char>)
    requires
        metrics_wf(v),
    ensures
        ({
            let post = MetricsView { counters: v.counters, gauges: put_sorted(v.gauges, name, value) };
            &&& gauge_value(post, name) == Some(value)
            &&& other != name ==> gauge_value(post, other) == gauge_value(v, other)
        }),
{
    lemma_put_sorted_lookup(v.gauges, name, value, other);
}

/// A named record of one step of a run, with string fields by key.
#[derive(Debug, Clone)]
pub struct SpanRecord {
    pub name: String,
    pub fields: Vec<(String, String)>,
}

/// The fields of a span, keys and values as characters, in key order.
pub open spec fn span_fields(s: SpanRecord) -> Seq<(Seq<char>, Seq<char>)> {
    s.fields@.map_values(|e: (String, String)| (e.0@, e.1@))
}

impl SpanRecord {
    /// A span with no fields.
    pub fn new(name: &str) -> (r: SpanRecord)
        ensures
            r.name@ == name@,
            r.fields@.len() == 0,
    {
        SpanRecord { name: name.to_owned(), fields: Vec::new() }
    }

    /// The span with field `key` set to `value`, replacing an earlier value
    /// of that key.
    pub fn with_field(self, key: &str, value: &str) -> (r: SpanRecord)
        requires
            keys_sorted(entries_view(self.fields@)),
        ensures
            r.name == self.name,
            keys_sorted(entries_view(r.fields@)),
            span_fields(r) == put_sorted(span_fields(self), key@, value@),
    {
        let mut record = self;
        let ghost pre = record.fields@;
        let v = value.to_owned();
        put_entry(&mut record.fields, key.to_owned(), v);
        proof {
            let post = record.fields@;
            assert(entries_view(post) == put_sorted(entries_view(pre), key@, v));
            lemma_span_fields_put(pre, post, key@, v);
        }
        record
    }
}

proof fn lemma_span_fields_put(pre: Seq<(String, String)>, post: Seq<(String, String)>, k: Seq<char>, v: String)
    requires
        keys_sorted(entries_view(pre)),
        entries_view(post) == put_sorted(entries_view(pre), k, v),
    ensures
        post.map_values(|e: (String, String)| (e.0@, e.1@)) == put_sorted(pre.map_values(|e: (String, String)| (e.0@, e.1@)), k, v@),
{
    let a = entries_view(pre);
    let b = pre.map_values(|e: (String, String)| (e.0@, e.1@));
    crate::keyed::lemma_insert_position_keys(a, b, k);
    let lhs = post.map_values(|e: (String, String)| (e.0@, e.1@));
    let rhs = put_sorted(b, k, v@);
    let ev = entries_view(post);
    let p = insert_position(a, k) as int;
    crate::keyed::lemma_insert_position(a, k);
    assert(a.len() == pre.len() && b.len() == pre.len());
    assert(forall|i: int| 0 <= i < pre.len() ==> #[trigger] a[i] == (pre[i].0@, pre[i].1));
    assert(forall|i: int| 0 <= i < pre.len() ==> #[trigger] b[i] == (pre[i].0@, pre[i].1@));
    assert(forall|i: int| 0 <= i < post.len() ==> #[trigger] ev[i] == (post[i].0@, post[i].1));
    if p < a.len() && a[p].0 == k {
        assert(ev == a.update(p, (k, v)));
        assert(rhs == b.update(p, (k, v@)));
        assert(lhs.len() == post.len());
        assert(ev.len() == post.len());
        assert(rhs.len() == b.len());
        assert(lhs.len() == rhs.len());
        assert forall|i: int| 0 <= i < lhs.len() implies lhs[i] == rhs[i] by {
            assert(ev[i] == (post[i].0@, post[i].1));
        }
    } else {
        assert(ev == a.insert(p, (k, v)));
        assert(rhs == b.insert(p, (k, v@)));
        assert(lhs.len() == post.len());
        assert(ev.len() == post.len());
        assert(rhs.len() == b.len() + 1);
        assert(lhs.len() == rhs.len());
        assert forall|i: int| 0 <= i < lhs.len() implies lhs[i] == rhs[i] by {
            assert(ev[i] == (post[i].0@, post[i].1));
            if i < p {
                assert(ev[i] == a[i]);
            } else if i > p {
                assert(ev[i] == a[i - 1]);
            }
        }
    }
    assert(lhs =~= rhs);
}

/// The counters of a pipeline run once it has started: one run, and the
/// rows of its input.
pub open spec fn started_counters(input_rows: usize) -> Seq<(Seq<char>, u64)> {
    put_sorted(put_sorted(Seq::empty(), "pipeline_runs_total"@, 1u64), "pipeline_input_rows_total"@, input_rows as u64)
}

/// The fields of the span that opens a pipeline run.
pub open spec fn start_fields(symbol: Seq<char>, input_rows: usize, window: usize) -> Seq<(Seq<char>, Seq<char>)> {
    put_sorted(
        put_sorted(put_sorted(Seq::empty(), "symbol"@, symbol), "input_rows"@, decimal(input_rows as nat)),
        "window"@,
        decimal(window as nat),
    )
}

/// Opens the record of a pipeline run over `input_rows` bars of `symbol`:
/// a registry that counts the run and its rows, and the span
/// `pipeline_start` with the symbol, the row count and the window.
pub fn start_observation(symbol: &str, input_rows: usize, window: usize) -> (r: (MetricRegistry, SpanRecord))
    ensures
        metrics_wf(r.0@),
        r.0@.counters == started_counters(input_rows),
        r.0@.gauges.len() == 0,
        r.1.name@ == "pipeline_start"@,
        keys_sorted(entries_view(r.1.fields@)),
        span_fields(r.1) == start_fields(symbol@, input_rows, window),
{
    let mut metrics = MetricRegistry::new();
    let ghost v0 = metrics@;
    proof {
        assert(v0.counters =~= Seq::<(Seq<char>, u64)>::empty());
        reveal_strlit("pipeline_runs_total");
        reveal_strlit("pipeline_input_rows_total");
        assert("pipeline_runs_total"@[9] != "pipeline_input_rows_total"@[9]);
        increment_adds_to_counter(v0, "pipeline_runs_total"@, 1, "pipeline_input_rows_total"@);
    }
    metrics.increment("pipeline_runs_total", 1);
    metrics.increment("pipeline_input_rows_total", input_rows as u64);
    let span = SpanRecord::new("pipeline_start");
    proof {
        assert(span_fields(span) =~= Seq::<(Seq<char>, Seq<char>)>::empty());
        assert(entries_view(span.fields@) =~= Seq::<(Seq<char>, String)>::empty());
    }
    let span = span.with_field("symbol", symbol);
    let rows = usize_to_decimal(input_rows);
    let span = span.with_field("input_rows", rows.as_str());
    let window_text = usize_to_decimal(window);
    let span = span.with_field("window", window_text.as_str());
    (metrics, span)
}

/// The counters of a run once it has finished, from those it had.
pub open spec fn finished_counters(counters: Seq<(Seq<char>, u64)>, signal_rows: usize, factor_rows: usize) -> Seq<(Seq<char>, u64)> {
    let v = MetricsView { counters, gauges: Seq::empty() };
    let after_signals = put_sorted(
        counters,
        "pipeline_signal_rows_total"@,
        (counter_value(v, "pipeline_signal_rows_total"@) + signal_rows) as u64,
    );
    let w = MetricsView { counters: after_signals, gauges: Seq::empty() };
    put_sorted(
        after_signals,
        "pipeline_factor_rows_total"@,
        (counter_value(w, "pipeline_factor_rows_total"@) + factor_rows) as u64,
    )
}

/// The gauges of a run once it has finished, from those it had.
pub open spec fn finished_gauges(
    gauges: Seq<(Seq<char>, Float64)>,
    final_equity: Float64,
    total_return: Float64,
    total_fees: Float64,
) -> Seq<(Seq<char>, Float64)> {
    put_sorted(
        put_sorted(put_sorted(gauges, "pipeline_final_equity"@, final_equity), "pipeline_total_return"@, total_return),
        "pipeline_total_fees"@,
        total_fees,
    )
}

/// The fields of the span that closes a pipeline run.
pub open spec fn finish_fields(symbol: Seq<char>, signal_rows: usize, final_equity_text: Seq<char>) -> Seq<(Seq<char>, Seq<char>)> {
    put_sorted(
        put_sorted(put_sorted(Seq::empty(), "symbol"@, symbol), "signal_rows"@, decimal(signal_rows as nat)),
        "final_equity"@,
        final_equity_text,
    )
}

/// Closes the record of a pipeline run that produced `signal_rows` signals
/// from `factor_rows` factor values: adds both to their counters, sets the
/// gauges of final equity, total return and fees, and returns the span
/// `pipeline_finish` with the symbol, the signal count and the final equity
/// as written for people (`final_equity_text`).
pub fn finish_observation(
    metrics: &mut MetricRegistry,
    symbol: &str,
    signal_rows: usize,
    factor_rows: usize,
    final_equity: Float64,
    total_return: Float64,
    total_fees: Float64,
    final_equity_text: &str,
) -> (r: SpanRecord)
    requires
        metrics_wf(old(metrics)@),
        counter_value(old(metrics)@, "pipeline_signal_rows_total"@) + signal_rows <= u64::MAX,
        counter_value(old(metrics)@, "pipeline_factor_rows_total"@) + factor_rows <= u64::MAX,
    ensures
        metrics_wf(final(metrics)@),
        final(metrics)@.counters == finished_counters(old(metrics)@.counters, signal_rows, factor_rows),
        final(metrics)@.gauges == finished_gauges(old(metrics)@.gauges, final_equity, total_return, total_fees),
        r.name@ == "pipeline_finish"@,
        keys_sorted(entries_view(r.fields@)),
        span_fields(r) == finish_fields(symbol@, signal_rows, final_equity_text@),
{
    let ghost v0 = metrics@;
    proof {
        reveal_strlit("pipeline_signal_rows_total");
        reveal_strlit("pipeline_factor_rows_total");
        assert("pipeline_signal_rows_total"@[9] != "pipeline_factor_rows_total"@[9]);
        increment_adds_to_counter(v0, "pipeline_signal_rows_total"@, signal_rows as u64, "pipeline_factor_rows_total"@);
        assert(counter_value(MetricsView { counters: v0.counters, gauges: Seq::empty() }, "pipeline_signal_rows_total"@)
            == counter_value(v0, "pipeline_signal_rows_total"@));
    }
    metrics.increment("pipeline_signal_rows_total", signal_rows as u64);
    let ghost v1 = metrics@;
    proof {
        assert(counter_value(MetricsView { counters: v1.counters, gauges: Seq::empty() }, "pipeline_factor_rows_total"@)
            == counter_value(v1, "pipeline_factor_rows_total"@));
    }
    metrics.increment("pipeline_factor_rows_total", factor_rows as u64);
    metrics.set_gauge("pipeline_final_equity", final_equity);
    metrics.set_gauge("pipeline_total_return", total_return);
    metrics.set_gauge("pipeline_total_fees", total_fees);
    let span = SpanRecord::new("pipeline_finish");
    proof {
        assert(span_fields(span) =~= Seq::<(Seq<char>, Seq<char>)>::empty());
        assert(entries_view(span.fields@) =~= Seq::<(Seq<char>, String)>::empty());
    }
    let span = span.with_field("symbol", symbol);
    let rows = usize_to_decimal(signal_rows);
    let span = span.with_field("signal_rows", rows.as_str());
    let span = span.with_field("final_equity", final_equity_text);
    span
}

} // verus!
