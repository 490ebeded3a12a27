//! The metrics that the relay reports. Their labels come from its configuration,
//! never from an event.
use vstd::prelude::*;

verus! {

/// What a metric counts.
#[derive(Debug, Clone, Copy, PartialEq, Eq, Structural)]
pub enum Kind {
    Gauge,
    Counter,
    Histogram,
}

/// A metric.
#[derive(Debug, Clone, Copy, PartialEq, Eq)]
pub struct Family {
    /// Its name.
    pub name: &'static str,
    /// What it says.
    pub help: &'static str,
    /// What it counts.
    pub kind: Kind,
    /// The first label, if any.
    pub first_label: Option<&'static str>,
    /// The second label, if any.
    pub second_label: Option<&'static str>,
}

/// The number of metrics.
pub const FAMILY_COUNT: usize = 9;

/// The name of each metric.
pub open spec fn family_name(i: int) -> Seq<char> {
    if i == 0 {
        "pwrelay_build_info"@
    } else if i == 1 {
        "pwrelay_ready"@
    } else if i == 2 {
        "pwrelay_source_lines_total"@
    } else if i == 3 {
        "pwrelay_parsed_events_total"@
    } else if i == 4 {
        "pwrelay_enricher_calls_total"@
    } else if i == 5 {
        "pwrelay_subscribers_matched_total"@
    } else if i == 6 {
        "pwrelay_deliveries_total"@
    } else if i == 7 {
        "pwrelay_delivery_latency_seconds"@
    } else {
        "pwrelay_dlq_depth"@
    }
}

/// What each metric counts.
pub open spec fn family_kind(i: int) -> Kind {
    if i == 0 || i == 1 || i == 8 {
        Kind::Gauge
    } else if i == 7 {
        Kind::Histogram
    } else {
        Kind::Counter
    }
}

/// The labels of each metric.
pub open spec fn family_labels(i: int) -> (Option<Seq<char>>, Option<Seq<char>>) {
    if i == 0 {
        (Some("version"@), Some("git_sha"@))
    } else if i == 1 {
        (None, None)
    } else if i == 2 {
        (Some("source_id"@), None)
    } else if i == 3 {
        (Some("result"@), None)
    } else if i == 4 {
        (Some("enricher"@), Some("result"@))
    } else if i == 6 {
        (Some("subscriber_id"@), Some("outcome"@))
    } else {
        (Some("subscriber_id"@), None)
    }
}

/// What each metric says.
pub open spec fn family_help(i: int) -> Seq<char> {
    if i == 0 {
        "purple-wolf-relay build metadata (always 1)"@
    } else if i == 1 {
        "1 if the relay pipeline considers itself ready (see /readyz)"@
    } else if i == 2 {
        "Lines read from each configured source."@
    } else if i == 3 {
        "Parser outcomes by result class."@
    } else if i == 4 {
        "Enricher invocations by name and outcome."@
    } else if i == 5 {
        "Envelopes that matched each subscriber's filter."@
    } else if i == 6 {
        "Delivery outcomes per subscriber."@
    } else if i == 7 {
        "End-to-end delivery latency (per attempt) seen by each subscriber."@
    } else {
        "Current DLQ depth per subscriber."@
    }
}

/// An optional label, by its characters.
pub open spec fn opt_label(o: Option<&'static str>) -> Option<Seq<char>> {
    match o {
        Some(s) => Some(s@),
        None => None,
    }
}

impl Family {
    /// Whether this is the metric of that number.
    pub open spec fn is_number(&self, i: int) -> bool {
        &&& self.name@ == family_name(i)
        &&& self.help@ == family_help(i)
        &&& self.kind == family_kind(i)
        &&& (opt_label(self.first_label), opt_label(self.second_label)) == family_labels(i)
    }
}

/// The metric of each number.
pub fn family(i: usize) -> (r: Family)
    requires
        i < FAMILY_COUNT,
    ensures
        r.is_number(i as int),
{
    if i == 0 {
        Family {
            name: "pwrelay_build_info",
            help: "purple-wolf-relay build metadata (always 1)",
            kind: Kind::Gauge,
            first_label: Some("version"),
            second_label: Some("git_sha"),
        }
    } else if i == 1 {
        Family {
            name: "pwrelay_ready",
            help: "1 if the relay pipeline considers itself ready (see /readyz)",
            kind: Kind::Gauge,
            first_label: None,
            second_label: None,
        }
    } else if i == 2 {
        Family {
            name: "pwrelay_source_lines_total",
            help: "Lines read from each configured source.",
            kind: Kind::Counter,
            first_label: Some("source_id"),
            second_label: None,
        }
    } else if i == 3 {
        Family {
            name: "pwrelay_parsed_events_total",
            help: "Parser outcomes by result class.",
            kind: Kind::Counter,
            first_label: Some("result"),
            second_label: None,
        }
    } else if i == 4 {
        Family {
            name: "pwrelay_enricher_calls_total",
            help: "Enricher invocations by name and outcome.",
            kind: Kind::Counter,
            first_label: Some("enricher"),
            second_label: Some("result"),
        }
    } else if i == 5 {
        Family {
            name: "pwrelay_subscribers_matched_total",
            help: "Envelopes that matched each subscriber's filter.",
            kind: Kind::Counter,
            first_label: Some("subscriber_id"),
            second_label: None,
        }
    } else if i == 6 {
        Family {
            name: "pwrelay_deliveries_total",
            help: "Delivery outcomes per subscriber.",
            kind: Kind::Counter,
            first_label: Some("subscriber_id"),
            second_label: Some("outcome"),
        }
    } else if i == 7 {
        Family {
            name: "pwrelay_delivery_latency_seconds",
            help: "End-to-end delivery latency (per attempt) seen by each subscriber.",
            kind: Kind::Histogram,
            first_label: Some("subscriber_id"),
            second_label: None,
        }
    } else {
        Family {
            name: "pwrelay_dlq_depth",
            help: "Current DLQ depth per subscriber.",
            kind: Kind::Gauge,
            first_label: Some("subscriber_id"),
            second_label: None,
        }
    }
}

/// The upper bounds of the latency's buckets, in milliseconds.
pub open spec fn bucket_bounds() -> Seq<u64> {
    seq![5, 10, 25, 50, 100, 250, 500, 1000, 2500, 5000, 10000]
}

/// The upper bounds of the latency's buckets, in milliseconds.
pub fn latency_buckets_ms() -> (r: Vec<u64>)
    ensures
        r@ == bucket_bounds(),
{
    vec![5, 10, 25, 50, 100, 250, 500, 1000, 2500, 5000, 10000]
}

/// The buckets ascend.
pub proof fn law_buckets_ascend(i: int, j: int)
    requires
        0 <= i < j < bucket_bounds().len(),
    ensures
        bucket_bounds()[i] < bucket_bounds()[j],
{
}

/// No two metrics have one name.
pub proof fn law_metric_names_are_distinct(i: int, j: int)
    requires
        0 <= i < j < FAMILY_COUNT,
    ensures
        family_name(i) != family_name(j),
{
    reveal_strlit("pwrelay_build_info");
    reveal_strlit("pwrelay_ready");
    reveal_strlit("pwrelay_source_lines_total");
    reveal_strlit("pwrelay_parsed_events_total");
    reveal_strlit("pwrelay_enricher_calls_total");
    reveal_strlit("pwrelay_subscribers_matched_total");
    reveal_strlit("pwrelay_deliveries_total");
    reveal_strlit("pwrelay_delivery_latency_seconds");
    reveal_strlit("pwrelay_dlq_depth");
    assert(family_name(i).len() != family_name(j).len() || family_name(i)[8] != family_name(j)[8]
        || family_name(i)[9] != family_name(j)[9]);
}

/// A family is a counter just when its name says that it counts a total.
pub proof fn law_totals_are_counters(i: int)
    requires
        0 <= i < FAMILY_COUNT,
    ensures
        ({
            let n = family_name(i);
            family_kind(i) is Counter <==> n.len() >= 6 && n.skip(n.len() - 6) == "_total"@
        }),
        family_kind(i) is Histogram <==> family_name(i) == "pwrelay_delivery_latency_seconds"@,
{
    reveal_strlit("_total");
    reveal_strlit("pwrelay_build_info");
    reveal_strlit("pwrelay_ready");
    reveal_strlit("pwrelay_source_lines_total");
    reveal_strlit("pwrelay_parsed_events_total");
    reveal_strlit("pwrelay_enricher_calls_total");
    reveal_strlit("pwrelay_subscribers_matched_total");
    reveal_strlit("pwrelay_deliveries_total");
    reveal_strlit("pwrelay_delivery_latency_seconds");
    reveal_strlit("pwrelay_dlq_depth");
    if i < 7 {
        law_metric_names_are_distinct(i, 7);
    } else if i > 7 {
        law_metric_names_are_distinct(7, i);
    }
    let n = family_name(i);
    let end = n.skip(n.len() - 6);
    if family_kind(i) is Counter {
        assert(end =~= "_total"@);
    } else {
        assert(end[5] != 'l' || end[4] != 'a' || end[3] != 't');
        assert("_total"@[5] == 'l' && "_total"@[4] == 'a' && "_total"@[3] == 't');
    }
}

} // verus!
