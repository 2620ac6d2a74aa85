use prom_scrape::model::{Metric, MetricHistory, MetricType, Sample};
use prom_scrape::parser::{decode_single_scrape_metric, split_metric_lines, DecodeError};
use prom_scrape::sample_data::generate_metric_lines;
use prom_scrape::scrape::{remaining_tick_ms, scrape_cycle, split_body, update_history_with_new_scrape};
use std::time::{SystemTime, UNIX_EPOCH};

fn now() -> u64 {
    SystemTime::now().duration_since(UNIX_EPOCH).unwrap().as_secs()
}

fn lines_of(v: &[&str]) -> Vec<String> {
    v.iter().map(|s| s.to_string()).collect()
}

fn update_and_assert(history: &mut MetricHistory, lines: Vec<Vec<String>>, expected_length: usize) {
    update_history_with_new_scrape(history, lines, now());
    for i in 0..history.metrics.len() {
        let metric = history.metrics.value_at(i);
        for j in 0..metric.time_series.len() {
            assert_eq!(metric.time_series.value_at(j).samples.len(), expected_length);
        }
    }
}

#[test]
fn test_update_history_with_new_scrape() {
    let mut metric_history = MetricHistory::new();
    // simulate first scrape
    let lines = split_metric_lines(generate_metric_lines());
    update_and_assert(&mut metric_history, lines, 1);
    // simulate second scrape
    let lines = split_metric_lines(generate_metric_lines());
    update_and_assert(&mut metric_history, lines, 2);
}

#[test]
fn test_convert_single_scrape_metric_into_metric_and_update_metric() {
    // simulate first scrape
    let lines = split_metric_lines(generate_metric_lines());
    let mut metrics: Vec<Metric> = Vec::new();
    for part in lines {
        let single_scrape_metric = decode_single_scrape_metric(part, now()).unwrap();
        let name_to_test = single_scrape_metric.name.clone();
        let labels_to_test = match single_scrape_metric.value_per_labels.keys().first() {
            Some(key) => key.clone(),
            None => String::new(),
        };
        let metric = single_scrape_metric.into_metric();
        assert_eq!(metric.details.name, name_to_test);
        assert_eq!(metric.time_series.contains_key(&labels_to_test), true);
        metrics.push(metric);
    }
    // simulate second scrape
    let lines = split_metric_lines(generate_metric_lines());
    for part in lines {
        let single_scrape_metric = decode_single_scrape_metric(part, now()).unwrap();
        // update existing metrics
        let metric_to_update_option = metrics
            .iter_mut()
            .find(|m| m.details.name == single_scrape_metric.name);
        match metric_to_update_option {
            Some(metric_to_update) => {
                metric_to_update.update_time_series(single_scrape_metric.value_per_labels);
                for j in 0..metric_to_update.time_series.len() {
                    assert_eq!(metric_to_update.time_series.value_at(j).samples.len(), 2);
                }
            }
            None => {
                panic!("no additional metric should be added");
            }
        }
    }
}

const BODY: &str = "# HELP metric_1 Description of the metric\n# TYPE metric_1 gauge\nmetric_1{shard=\"0\"} 10.000007\n# HELP metric_2 Description\n# TYPE metric_2 counter\nmetric_2{shard=\"0\",label1=\"test1\"} 5\n";

#[test]
fn end_to_end_two_scrapes() {
    let mut history = MetricHistory::new();
    let mut error: Option<String> = None;
    scrape_cycle(&mut history, &mut error, Ok(BODY.to_string()), 100);
    scrape_cycle(&mut history, &mut error, Ok(BODY.to_string()), 200);
    assert!(error.is_none());
    let mut names = history.get_metrics_headers();
    names.sort();
    assert_eq!(names, vec!["metric_1".to_string(), "metric_2".to_string()]);
    let m1 = history.get_metric("metric_1").unwrap();
    assert_eq!(m1.time_series.len(), 1);
    assert_eq!(m1.time_series.value_at(0).samples.len(), 2);
    let m2 = history.get_metric("metric_2").unwrap();
    assert_eq!(m2.metric_type, MetricType::Counter);
    assert_eq!(m2.time_series.len(), 1);
    let series = m2.time_series.get("shard=\"0\",label1=\"test1\"").unwrap();
    assert_eq!(series.labels.get("label1").unwrap(), "test1");
    let got: Vec<(u64, f64)> = series
        .samples
        .iter()
        .map(|s| match s {
            Sample::CounterSample(v) => (v.timestamp, v.value.text.parse::<f64>().unwrap()),
            _ => panic!("expected a counter sample"),
        })
        .collect();
    assert_eq!(got, vec![(100, 5.0), (200, 5.0)]);
}

#[test]
fn failed_fetch_keeps_history_and_records_error() {
    let mut history = MetricHistory::new();
    let mut error: Option<String> = None;
    scrape_cycle(&mut history, &mut error, Ok(BODY.to_string()), 1);
    scrape_cycle(&mut history, &mut error, Err("connection refused".to_string()), 2);
    assert_eq!(error.as_deref(), Some("connection refused"));
    assert_eq!(history.get_metrics_headers().len(), 2);
    let m1 = history.get_metric("metric_1").unwrap();
    assert_eq!(m1.time_series.value_at(0).samples.len(), 1);
    scrape_cycle(&mut history, &mut error, Ok(BODY.to_string()), 3);
    assert!(error.is_none());
    assert_eq!(history.get_metric("metric_1").unwrap().time_series.value_at(0).samples.len(), 2);
}

#[test]
fn new_metric_has_exactly_the_scraped_keys() {
    let mut history = MetricHistory::new();
    let lines = lines_of(&["# HELP g G", "# TYPE g gauge", "g{a=\"1\"} 1", "g{a=\"2\"} 2", "g 3"]);
    let scrape = decode_single_scrape_metric(lines, 5).unwrap();
    assert!(history.merge_scrape(scrape).is_ok());
    let g = history.get_metric("g").unwrap();
    let mut keys = g.time_series.keys();
    keys.sort();
    assert_eq!(keys, vec!["a=\"1\"", "a=\"2\"", "single-value-with-no-labels"]);
    let plain = g.time_series.get("single-value-with-no-labels").unwrap();
    assert_eq!(plain.labels.get("key").unwrap(), "single-value-with-no-labels");
    assert_eq!(plain.samples.len(), 1);
}

#[test]
fn unreported_metric_is_left_alone() {
    let mut history = MetricHistory::new();
    let mut error: Option<String> = None;
    scrape_cycle(&mut history, &mut error, Ok(BODY.to_string()), 1);
    let only_two = "# HELP metric_2 Description\n# TYPE metric_2 counter\nmetric_2{shard=\"0\",label1=\"test1\"} 6\n";
    scrape_cycle(&mut history, &mut error, Ok(only_two.to_string()), 2);
    scrape_cycle(&mut history, &mut error, Ok(only_two.to_string()), 3);
    assert_eq!(history.get_metric("metric_1").unwrap().time_series.value_at(0).samples.len(), 1);
    assert_eq!(history.get_metric("metric_2").unwrap().time_series.value_at(0).samples.len(), 3);
}

#[test]
fn merge_counts_samples_per_scrape() {
    let mut history = MetricHistory::new();
    for n in 1..=5u64 {
        let lines = lines_of(&["# HELP c C", "# TYPE c counter", "c{k=\"v\"} 1"]);
        let scrape = decode_single_scrape_metric(lines, n).unwrap();
        history.merge_scrape(scrape).unwrap();
        let c = history.get_metric("c").unwrap();
        assert_eq!(c.time_series.get("k=\"v\"").unwrap().samples.len(), n as usize);
    }
}

#[test]
fn type_change_is_refused() {
    let mut history = MetricHistory::new();
    let gauge = lines_of(&["# HELP x X", "# TYPE x gauge", "x 1"]);
    history.merge_scrape(decode_single_scrape_metric(gauge, 1).unwrap()).unwrap();
    let counter = lines_of(&["# HELP x X", "# TYPE x counter", "x 2"]);
    let r = history.merge_scrape(decode_single_scrape_metric(counter, 2).unwrap());
    assert_eq!(r.unwrap_err(), DecodeError::TypeChanged);
    let x = history.get_metric("x").unwrap();
    assert_eq!(x.metric_type, MetricType::Gauge);
    assert_eq!(x.time_series.value_at(0).samples.len(), 1);
}

#[test]
fn empty_body_changes_nothing() {
    let mut history = MetricHistory::new();
    let mut error: Option<String> = Some("old".to_string());
    assert_eq!(split_body("").len(), 1);
    scrape_cycle(&mut history, &mut error, Ok(String::new()), 1);
    assert!(history.is_empty());
    assert!(error.is_none());
}

#[test]
fn split_body_keeps_trailing_empty_line() {
    let blocks = split_body(BODY);
    assert_eq!(blocks.len(), 2);
    assert_eq!(blocks[1].len(), 4);
    assert_eq!(blocks[1][3], "");
}

#[test]
fn tick_sleep_compensates_for_elapsed_time() {
    assert_eq!(remaining_tick_ms(5, 1200), 3800);
    assert_eq!(remaining_tick_ms(5, 5000), 0);
    assert_eq!(remaining_tick_ms(1, 7000), 0);
    assert_eq!(remaining_tick_ms(u64::MAX, 0), u64::MAX);
    assert_eq!(remaining_tick_ms(0, 250), 750);
}
