//! A scrape body to exercise the parser with.
use vstd::prelude::*;

use crate::text::views;

verus! {

/// Four single-value metrics and a histogram with two label sets.
pub open spec fn sample_metric_lines() -> Seq<Seq<char>> {
    seq![
        "# HELP metric_1 Description of the metric"@,
        "# TYPE metric_1 gauge"@,
        "metric_1{shard=\"0\"} 10.0"@,
        "# HELP metric_2 Description"@,
        "# TYPE metric_2 counter"@,
        "metric_2{shard=\"0\",label1=\"test1\"} 5"@,
        "# HELP incoming_requests Incoming Requests"@,
        "# TYPE incoming_requests counter"@,
        "incoming_requests 10"@,
        "# HELP connected_clients Connected Clients"@,
        "# TYPE connected_clients gauge"@,
        "connected_clients 3"@,
        "# HELP response_time Response Times"@,
        "# TYPE response_time histogram"@,
        "response_time_bucket{env=\"production\",le=\"0.005\"} 3"@,
        "response_time_bucket{env=\"production\",le=\"0.01\"} 4"@,
        "response_time_bucket{env=\"production\",le=\"0.025\"} 13"@,
        "response_time_bucket{env=\"production\",le=\"0.05\"} 25"@,
        "response_time_bucket{env=\"production\",le=\"0.1\"} 57"@,
        "response_time_bucket{env=\"production\",le=\"0.25\"} 148"@,
        "response_time_bucket{env=\"production\",le=\"0.5\"} 319"@,
        "response_time_bucket{env=\"production\",le=\"+Inf\"} 6563"@,
        "response_time_sum{env=\"production\"} 32899.06535799631"@,
        "response_time_count{env=\"production\"} 6563"@,
        "response_time_bucket{env=\"testing\",le=\"0.005\"} 4"@,
        "response_time_bucket{env=\"testing\",le=\"0.01\"} 4"@,
        "response_time_bucket{env=\"testing\",le=\"0.025\"} 13"@,
        "response_time_bucket{env=\"testing\",le=\"0.05\"} 31"@,
        "response_time_bucket{env=\"testing\",le=\"0.1\"} 56"@,
        "response_time_bucket{env=\"testing\",le=\"0.25\"} 168"@,
        "response_time_bucket{env=\"testing\",le=\"0.5\"} 338"@,
        "response_time_bucket{env=\"testing\",le=\"+Inf\"} 6451"@,
        "response_time_sum{env=\"testing\"} 32157.055112958977"@,
        "response_time_count{env=\"testing\"} 6451"@,
    ]
}

/// The lines of `sample_metric_lines`.
pub fn generate_metric_lines() -> (r: Vec<String>)
    ensures
        views(r@) == sample_metric_lines(),
{
    let mut lines: Vec<String> = Vec::new();
    lines.push(String::from_str("# HELP metric_1 Description of the metric"));
    lines.push(String::from_str("# TYPE metric_1 gauge"));
    lines.push(String::from_str("metric_1{shard=\"0\"} 10.0"));
    lines.push(String::from_str("# HELP metric_2 Description"));
    lines.push(String::from_str("# TYPE metric_2 counter"));
    lines.push(String::from_str("metric_2{shard=\"0\",label1=\"test1\"} 5"));
    lines.push(String::from_str("# HELP incoming_requests Incoming Requests"));
    lines.push(String::from_str("# TYPE incoming_requests counter"));
    lines.push(String::from_str("incoming_requests 10"));
    lines.push(String::from_str("# HELP connected_clients Connected Clients"));
    lines.push(String::from_str("# TYPE connected_clients gauge"));
    lines.push(String::from_str("connected_clients 3"));
    lines.push(String::from_str("# HELP response_time Response Times"));
    lines.push(String::from_str("# TYPE response_time histogram"));
    lines.push(String::from_str("response_time_bucket{env=\"production\",le=\"0.005\"} 3"));
    lines.push(String::from_str("response_time_bucket{env=\"production\",le=\"0.01\"} 4"));
    lines.push(String::from_str("response_time_bucket{env=\"production\",le=\"0.025\"} 13"));
    lines.push(String::from_str("response_time_bucket{env=\"production\",le=\"0.05\"} 25"));
    lines.push(String::from_str("response_time_bucket{env=\"production\",le=\"0.1\"} 57"));
    lines.push(String::from_str("response_time_bucket{env=\"production\",le=\"0.25\"} 148"));
    lines.push(String::from_str("response_time_bucket{env=\"production\",le=\"0.5\"} 319"));
    lines.push(String::from_str("response_time_bucket{env=\"production\",le=\"+Inf\"} 6563"));
    lines.push(String::from_str("response_time_sum{env=\"production\"} 32899.06535799631"));
    lines.push(String::from_str("response_time_count{env=\"production\"} 6563"));
    lines.push(String::from_str("response_time_bucket{env=\"testing\",le=\"0.005\"} 4"));
    lines.push(String::from_str("response_time_bucket{env=\"testing\",le=\"0.01\"} 4"));
    lines.push(String::from_str("response_time_bucket{env=\"testing\",le=\"0.025\"} 13"));
    lines.push(String::from_str("response_time_bucket{env=\"testing\",le=\"0.05\"} 31"));
    lines.push(String::from_str("response_time_bucket{env=\"testing\",le=\"0.1\"} 56"));
    lines.push(String::from_str("response_time_bucket{env=\"testing\",le=\"0.25\"} 168"));
    lines.push(String::from_str("response_time_bucket{env=\"testing\",le=\"0.5\"} 338"));
    lines.push(String::from_str("response_time_bucket{env=\"testing\",le=\"+Inf\"} 6451"));
    lines.push(String::from_str("response_time_sum{env=\"testing\"} 32157.055112958977"));
    lines.push(String::from_str("response_time_count{env=\"testing\"} 6451"));
    assert(views(lines@) =~= sample_metric_lines());
    lines
}

} // verus!
