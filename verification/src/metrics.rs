//! Counters of what a pool has done, snapshots of them, and the snapshot as
//! text.
use crate::text::{decimal, decimal_string, push_two_places, ratio_scaled, scaled_ratio, two_places};
use vstd::prelude::*;
use vstd::string::StringExecFns;

verus! {

/// A reading of a pool's counters together with its gauges at that moment.
#[derive(Debug, Clone)]
pub struct PoolMetrics {
    /// Leases handed out so far.
    pub total_retrieved: usize,
    /// Objects taken back so far.
    pub total_returned: usize,
    /// Objects on lease.
    pub active_objects: usize,
    /// Objects on the shelf.
    pub available_objects: usize,
    /// Checkouts that found the shelf empty.
    pub pool_empty_events: usize,
    /// Returned objects that failed validation.
    pub validation_failures: usize,
    /// The pool's capacity.
    pub max_capacity: usize,
}

impl PoolMetrics {
    /// The share of the capacity that is on lease, in hundredths, rounded to
    /// the nearest; zero for a pool without capacity.
    pub open spec fn utilization(self) -> nat {
        scaled_ratio(self.active_objects as nat, self.max_capacity as nat, 100)
    }

    /// The reading as pairs of name and value, in a fixed order. Counts are
    /// in decimal, the utilization is a fraction with two places.
    pub open spec fn exported(self) -> Seq<(Seq<char>, Seq<char>)> {
        seq![
            ("total_retrieved"@, decimal(self.total_retrieved as nat)),
            ("total_returned"@, decimal(self.total_returned as nat)),
            ("active_objects"@, decimal(self.active_objects as nat)),
            ("available_objects"@, decimal(self.available_objects as nat)),
            ("pool_empty_events"@, decimal(self.pool_empty_events as nat)),
            ("validation_failures"@, decimal(self.validation_failures as nat)),
            ("utilization"@, two_places(self.utilization())),
            ("max_capacity"@, decimal(self.max_capacity as nat)),
        ]
    }

    /// The share of the capacity that is on lease, in hundredths.
    pub fn utilization_hundredths(&self) -> (hundredths: u128)
        ensures
            hundredths == self.utilization(),
    {
        ratio_scaled(self.active_objects, self.max_capacity, 100)
    }

    /// The utilization as a fraction with two decimal places.
    pub fn utilization_text(&self) -> (text: String)
        ensures
            text@ == two_places(self.utilization()),
    {
        let mut text = String::new();
        push_two_places(&mut text, self.utilization_hundredths());
        assert(text@ =~= two_places(self.utilization()));
        text
    }

    /// The reading as pairs of name and value.
    pub fn export(&self) -> (pairs: Vec<(String, String)>)
        ensures
            pairs.deep_view() == self.exported(),
    {
        let mut pairs: Vec<(String, String)> = Vec::new();
        pairs.push((String::from_str("total_retrieved"), decimal_string(self.total_retrieved)));
        pairs.push((String::from_str("total_returned"), decimal_string(self.total_returned)));
        pairs.push((String::from_str("active_objects"), decimal_string(self.active_objects)));
        pairs.push(
            (String::from_str("available_objects"), decimal_string(self.available_objects)),
        );
        pairs.push(
            (String::from_str("pool_empty_events"), decimal_string(self.pool_empty_events)),
        );
        pairs.push(
            (String::from_str("validation_failures"), decimal_string(self.validation_failures)),
        );
        pairs.push((String::from_str("utilization"), self.utilization_text()));
        pairs.push((String::from_str("max_capacity"), decimal_string(self.max_capacity)));
        assert(pairs.deep_view() =~= self.exported());
        pairs
    }
}

/// The label list of a sample: the pool's name first, then the caller's
/// labels in the order given.
pub open spec fn label_text(pool_name: Seq<char>, tags: Seq<(Seq<char>, Seq<char>)>) -> Seq<char>
    decreases tags.len(),
{
    if tags.len() == 0 {
        "pool=\""@ + pool_name + "\""@
    } else {
        label_text(pool_name, tags.drop_last()) + ","@ + tags.last().0 + "=\""@ + tags.last().1
            + "\""@
    }
}

/// The three lines that describe one metric: what it means, what kind it
/// is, and its one sample.
pub open spec fn metric_block(
    name: Seq<char>,
    help: Seq<char>,
    kind: Seq<char>,
    labels: Seq<char>,
    value: Seq<char>,
) -> Seq<char> {
    "# HELP "@ + name + " "@ + help + "\n"@ + "# TYPE "@ + name + " "@ + kind + "\n"@ + name
        + "{"@ + labels + "} "@ + value + "\n"@
}

/// The whole exposition of a reading: seven metrics, gauges first.
pub open spec fn exposition(metrics: PoolMetrics, labels: Seq<char>) -> Seq<char> {
    metric_block(
        "objectpool_objects_active"@,
        "Current active objects"@,
        "gauge"@,
        labels,
        decimal(metrics.active_objects as nat),
    ) + metric_block(
        "objectpool_objects_available"@,
        "Current available objects"@,
        "gauge"@,
        labels,
        decimal(metrics.available_objects as nat),
    ) + metric_block(
        "objectpool_utilization"@,
        "Pool utilization ratio"@,
        "gauge"@,
        labels,
        two_places(metrics.utilization()),
    ) + metric_block(
        "objectpool_objects_retrieved_total"@,
        "Total objects retrieved"@,
        "counter"@,
        labels,
        decimal(metrics.total_retrieved as nat),
    ) + metric_block(
        "objectpool_objects_returned_total"@,
        "Total objects returned"@,
        "counter"@,
        labels,
        decimal(metrics.total_returned as nat),
    ) + metric_block(
        "objectpool_events_empty_total"@,
        "Pool empty events"@,
        "counter"@,
        labels,
        decimal(metrics.pool_empty_events as nat),
    ) + metric_block(
        "objectpool_validation_failures_total"@,
        "Validation failures"@,
        "counter"@,
        labels,
        decimal(metrics.validation_failures as nat),
    )
}

/// What the caller's labels say, as text.
pub open spec fn tag_texts(tags: Option<&Vec<(String, String)>>) -> Seq<(Seq<char>, Seq<char>)> {
    match tags {
        Some(tags) => tags.deep_view(),
        None => Seq::empty(),
    }
}

fn push_block(out: &mut String, name: &str, help: &str, kind: &str, labels: &str, value: &str)
    ensures
        final(out)@ == old(out)@ + metric_block(name@, help@, kind@, labels@, value@),
{
    out.append("# HELP ");
    out.append(name);
    out.append(" ");
    out.append(help);
    out.append("\n");
    out.append("# TYPE ");
    out.append(name);
    out.append(" ");
    out.append(kind);
    out.append("\n");
    out.append(name);
    out.append("{");
    out.append(labels);
    out.append("} ");
    out.append(value);
    out.append("\n");
    assert(out@ =~= old(out)@ + metric_block(name@, help@, kind@, labels@, value@));
}

/// Writes readings in the text exposition format of monitoring scrapers.
pub struct MetricsExporter;

impl MetricsExporter {
    /// The exposition of `metrics` for the pool called `pool_name`, every
    /// sample labelled with the pool's name and with `tags`.
    pub fn export_prometheus(
        metrics: &PoolMetrics,
        pool_name: &str,
        tags: Option<&Vec<(String, String)>>,
    ) -> (text: String)
        ensures
            text@ == exposition(*metrics, label_text(pool_name@, tag_texts(tags))),
    {
        let labels = Self::format_labels(pool_name, tags);
        let mut out = String::new();
        push_block(
            &mut out,
            "objectpool_objects_active",
            "Current active objects",
            "gauge",
            labels.as_str(),
            decimal_string(metrics.active_objects).as_str(),
        );
        push_block(
            &mut out,
            "objectpool_objects_available",
            "Current available objects",
            "gauge",
            labels.as_str(),
            decimal_string(metrics.available_objects).as_str(),
        );
        push_block(
            &mut out,
            "objectpool_utilization",
            "Pool utilization ratio",
            "gauge",
            labels.as_str(),
            metrics.utilization_text().as_str(),
        );
        push_block(
            &mut out,
            "objectpool_objects_retrieved_total",
            "Total objects retrieved",
            "counter",
            labels.as_str(),
            decimal_string(metrics.total_retrieved).as_str(),
        );
        push_block(
            &mut out,
            "objectpool_objects_returned_total",
            "Total objects returned",
            "counter",
            labels.as_str(),
            decimal_string(metrics.total_returned).as_str(),
        );
        push_block(
            &mut out,
            "objectpool_events_empty_total",
            "Pool empty events",
            "counter",
            labels.as_str(),
            decimal_string(metrics.pool_empty_events).as_str(),
        );
        push_block(
            &mut out,
            "objectpool_validation_failures_total",
            "Validation failures",
            "counter",
            labels.as_str(),
            decimal_string(metrics.validation_failures).as_str(),
        );
        assert(out@ =~= exposition(*metrics, labels@));
        out
    }

    /// The label list of a sample.
    pub fn format_labels(pool_name: &str, tags: Option<&Vec<(String, String)>>) -> (labels:
        String)
        ensures
            labels@ == label_text(pool_name@, tag_texts(tags)),
    {
        let mut labels = String::from_str("pool=\"");
        labels.append(pool_name);
        labels.append("\"");
        assert(labels@ =~= label_text(pool_name@, Seq::empty()));
        if let Some(tags) = tags {
            let mut i: usize = 0;
            while i < tags.len()
                invariant
                    i <= tags.len(),
                    labels@ == label_text(pool_name@, tags.deep_view().take(i as int)),
                decreases tags.len() - i,
            {
                let ghost before = labels@;
                labels.append(",");
                labels.append(tags[i].0.as_str());
                labels.append("=\"");
                labels.append(tags[i].1.as_str());
                labels.append("\"");
                proof {
                    let seen = tags.deep_view().take(i + 1);
                    assert(seen.drop_last() =~= tags.deep_view().take(i as int));
                    assert(seen.last() == tags.deep_view()[i as int]);
                    assert(labels@ =~= before + ","@ + seen.last().0 + "=\""@ + seen.last().1
                        + "\""@);
                }
                i += 1;
            }
            assert(tags.deep_view().take(i as int) =~= tags.deep_view());
        }
        labels
    }
}

/// The running counters of a pool.
#[derive(Debug, Clone, Copy)]
pub struct MetricsTracker {
    /// Leases handed out so far.
    pub total_retrieved: usize,
    /// Objects taken back so far.
    pub total_returned: usize,
    /// Checkouts that found the shelf empty.
    pub pool_empty_events: usize,
    /// Returned objects that failed validation.
    pub validation_failures: usize,
}

impl MetricsTracker {
    /// Counters at zero.
    pub open spec fn fresh() -> MetricsTracker {
        MetricsTracker {
            total_retrieved: 0,
            total_returned: 0,
            pool_empty_events: 0,
            validation_failures: 0,
        }
    }

    /// Counters at zero.
    pub fn new() -> (tracker: Self)
        ensures
            tracker == MetricsTracker::fresh(),
    {
        MetricsTracker {
            total_retrieved: 0,
            total_returned: 0,
            pool_empty_events: 0,
            validation_failures: 0,
        }
    }

    /// The counters together with the three gauges given.
    pub open spec fn snapshot(self, active: usize, available: usize, capacity: usize) -> PoolMetrics {
        PoolMetrics {
            total_retrieved: self.total_retrieved,
            total_returned: self.total_returned,
            active_objects: active,
            available_objects: available,
            pool_empty_events: self.pool_empty_events,
            validation_failures: self.validation_failures,
            max_capacity: capacity,
        }
    }

    /// A reading of the counters together with the three gauges given.
    pub fn get_metrics(&self, active: usize, available: usize, capacity: usize) -> (metrics:
        PoolMetrics)
        ensures
            metrics == self.snapshot(active, available, capacity),
    {
        PoolMetrics {
            total_retrieved: self.total_retrieved,
            total_returned: self.total_returned,
            active_objects: active,
            available_objects: available,
            pool_empty_events: self.pool_empty_events,
            validation_failures: self.validation_failures,
            max_capacity: capacity,
        }
    }
}

impl Default for MetricsTracker {
    fn default() -> (tracker: Self)
        ensures
            tracker == MetricsTracker::fresh(),
    {
        MetricsTracker::new()
    }
}

} // verus!
