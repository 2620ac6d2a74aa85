use prom_scrape::model::{Bucket, MetricType, Sample};
use prom_scrape::parser::{
    decode_labels, decode_single_scrape_metric, extract_count, extract_labels,
    extract_labels_key_and_map, extract_name_docstring, extract_type, extract_value,
    further_split_metric_lines_for_histogram, split_metric_lines, DecodeError,
};
use prom_scrape::sample_data::generate_metric_lines;
use std::time::{SystemTime, UNIX_EPOCH};

fn now() -> u64 {
    SystemTime::now().duration_since(UNIX_EPOCH).unwrap().as_secs()
}

fn lines_of(v: &[&str]) -> Vec<String> {
    v.iter().map(|s| s.to_string()).collect()
}

#[test]
fn test_decode_labels() {
    let labels = decode_labels(&String::from("key1=\"value1\",key2=\"0\""));
    assert_eq!(labels.keys().len(), 2);
    assert_eq!(labels.get("key1").unwrap(), "value1");
    assert_eq!(labels.get("key2").unwrap(), "0");
}

#[test]
fn test_extract_name_docstring() {
    let line = String::from("# HELP metric_1 Description of the metric");
    let name_desc = extract_name_docstring(&line);
    match name_desc {
        Some((name, description)) => {
            assert_eq!(name, "metric_1");
            assert_eq!(description, "Description of the metric");
        }
        None => panic!("Failed to extract name and description"),
    }
}

#[test]
fn test_extract_type() {
    let line = String::from("# TYPE vectorized_pandaproxy_request_latency histogram");
    let metric_type = extract_type(&line);
    match metric_type {
        Some(metric_type) => {
            assert_eq!(metric_type, "histogram");
        }
        None => panic!("Failed to extract metric type"),
    }
}

#[test]
fn test_split_metric_lines() {
    let lines = generate_metric_lines();
    let splitted_lines = split_metric_lines(lines);
    assert_eq!(splitted_lines.len(), 5);
    assert_eq!(splitted_lines[0].len(), 3);
    assert_eq!(splitted_lines[1].len(), 3);
    assert_eq!(splitted_lines[2].len(), 3);
    assert_eq!(splitted_lines[3].len(), 3);
    assert_eq!(splitted_lines[4].len(), 22);
}

#[test]
fn test_further_split_metric_lines_for_histogram() {
    let lines = generate_metric_lines();
    let splitted_lines = split_metric_lines(lines);
    let further_splitted_metrics_for_hist =
        further_split_metric_lines_for_histogram(&splitted_lines[4]);
    assert_eq!(further_splitted_metrics_for_hist.len(), 2);
    assert_eq!(further_splitted_metrics_for_hist[0].len(), 10);
    assert_eq!(further_splitted_metrics_for_hist[1].len(), 10);
}

#[test]
fn test_extract_labels() {
    let mut lines = Vec::new();
    lines.push(String::from("metric_1{shard=\"0\"} 10.000007"));
    lines.push(String::from("metric_2{shard=\"0\",label1=\"test1\"} 5"));
    lines.push(String::from("incoming_requests 10"));
    let line = &lines[0];
    let labels = extract_labels(&line);
    match labels {
        Some(labels) => {
            assert_eq!(labels, "shard=\"0\"");
        }
        None => panic!("Failed to extract labels"),
    }
    let line = &lines[1];
    let labels = extract_labels(&line);
    match labels {
        Some(labels) => {
            assert_eq!(labels, "shard=\"0\",label1=\"test1\"");
        }
        None => panic!("Failed to extract labels"),
    }
    let line = &lines[2];
    let labels = extract_labels(&line);
    match labels {
        Some(_) => {
            panic!("Should have not extracted any label");
        }
        None => (),
    }
}

#[test]
fn test_decode_metric() {
    let mut lines = Vec::new();
    lines.push(String::from("# HELP metric_1 Description of the metric"));
    lines.push(String::from("# TYPE metric_1 gauge"));
    lines.push(String::from("metric_1{shard=\"0\"} 10.000007"));
    // insert to check if empty lines can be handled
    lines.push(String::from(""));
    let metric = decode_single_scrape_metric(lines, now()).unwrap();
    assert_eq!(metric.name, "metric_1");
}

#[test]
fn test_decode_single_scrape_metric() {
    let mut lines = Vec::new();
    lines.push(String::from("# HELP metric_1 Description of the metric"));
    lines.push(String::from("# TYPE metric_1 gauge"));
    lines.push(String::from("metric_1{shard=\"0\"} 10.000007"));
    // insert to check if empty lines can be handled
    lines.push(String::from(""));
    let metric = decode_single_scrape_metric(lines, now()).unwrap();
    assert_eq!(metric.name, "metric_1");
}

#[test]
fn test_decode_single_scrape_metric_with_histogram() {
    let mut lines = Vec::new();
    lines.push(String::from("# HELP response_time Response Times"));
    lines.push(String::from("# TYPE response_time histogram"));
    lines.push(String::from("response_time_bucket{env=\"production\",le=\"0.005\"} 3"));
    lines.push(String::from("response_time_bucket{env=\"production\",le=\"0.01\"} 4"));
    lines.push(String::from("response_time_bucket{env=\"production\",le=\"0.025\"} 13"));
    lines.push(String::from("response_time_bucket{env=\"production\",le=\"+Inf\"} 6563"));
    lines.push(String::from("response_time_sum{env=\"production\"} 32899.06535799631"));
    lines.push(String::from("response_time_count{env=\"production\"} 6563"));
    lines.push(String::from("response_time_bucket{env=\"testing\",le=\"0.005\"} 4"));
    lines.push(String::from("response_time_bucket{env=\"testing\",le=\"0.01\"} 4"));
    lines.push(String::from("response_time_bucket{env=\"testing\",le=\"0.025\"} 13"));
    lines.push(String::from("response_time_bucket{env=\"testing\",le=\"+Inf\"} 6451"));
    lines.push(String::from("response_time_sum{env=\"testing\"} 32157.055112958977"));
    lines.push(String::from("response_time_count{env=\"testing\"} 6451"));
    // insert to check if empty lines can be handled
    lines.push(String::from(""));
    let metric = decode_single_scrape_metric(lines, now()).unwrap();
    assert_eq!(metric.name, "response_time");
    assert_eq!(metric.value_per_labels.len(), 2);
    let metric_hist_1 = metric.value_per_labels.get("env=\"production\"").unwrap();
    let expected_1 = Vec::from([
        Bucket::new(String::from("0.005"), 3),
        Bucket::new(String::from("0.01"), 4),
        Bucket::new(String::from("0.025"), 13),
        Bucket::new(String::from("+Inf"), 6563),
    ]);
    let metric_hist_2 = metric.value_per_labels.get("env=\"testing\"").unwrap();
    let expected_2 = Vec::from([
        Bucket::new(String::from("0.005"), 4),
        Bucket::new(String::from("0.01"), 4),
        Bucket::new(String::from("0.025"), 13),
        Bucket::new(String::from("+Inf"), 6451),
    ]);
    match metric_hist_1 {
        Sample::HistogramSample(hist_metric_value) => {
            assert_eq!(hist_metric_value.bucket_values, expected_1);
            assert_eq!(hist_metric_value.sum.text.parse::<f64>().unwrap(), 32899.06535799631);
            assert_eq!(hist_metric_value.count, 6563);
        }
        _ => panic!("Failed to decode histogram"),
    }
    match metric_hist_2 {
        Sample::HistogramSample(hist_metric_value) => {
            assert_eq!(hist_metric_value.bucket_values, expected_2);
            assert_eq!(hist_metric_value.sum.text.parse::<f64>().unwrap(), 32157.055112958977);
            assert_eq!(hist_metric_value.count, 6451);
        }
        _ => panic!("Failed to decode histogram"),
    }
}

#[test]
fn decode_labels_skips_malformed_pair() {
    let labels = decode_labels("key1=value1,badpair");
    assert_eq!(labels.len(), 1);
    assert_eq!(labels.get("key1").unwrap(), "value1");
    let labels = decode_labels("a=\"1\",=v,k=,nothing,b=\"2\"");
    assert_eq!(labels.len(), 2);
    assert_eq!(labels.get("a").unwrap(), "1");
    assert_eq!(labels.get("b").unwrap(), "2");
}

#[test]
fn decode_labels_splits_at_first_equals() {
    let labels = decode_labels("k=\"a=b\"");
    assert_eq!(labels.len(), 1);
    assert_eq!(labels.get("k").unwrap(), "a=b");
    let labels = decode_labels("x=y=z,u=\"v\"");
    assert_eq!(labels.get("x").unwrap(), "y=z");
    assert_eq!(labels.get("u").unwrap(), "v");
}

#[test]
fn decode_labels_edge_cases() {
    assert_eq!(decode_labels("").len(), 0);
    let labels = decode_labels("k=\"1\",k=\"2\"");
    assert_eq!(labels.len(), 1);
    assert_eq!(labels.get("k").unwrap(), "2");
    let labels = decode_labels("q=\"\"");
    assert_eq!(labels.get("q").unwrap(), "");
}

#[test]
fn header_lines_that_do_not_decode() {
    assert!(extract_name_docstring("# HELP metric_1").is_none());
    assert!(extract_name_docstring("# HELP metric_1 ").is_none());
    assert!(extract_name_docstring("# TYPE metric_1 gauge").is_none());
    assert!(extract_type("# TYPE metric_1").is_none());
    assert!(extract_type("# HELP metric_1 gauge").is_none());
    let (name, doc) = extract_name_docstring("# HELP m   spaced  doc  ").unwrap();
    assert_eq!(name, "m");
    assert_eq!(doc, "spaced  doc");
}

#[test]
fn labels_need_a_closing_brace() {
    assert!(extract_labels(&String::from("m{a=\"1\" 3")).is_none());
    assert_eq!(extract_labels(&String::from("m{} 3")).unwrap(), "");
}

#[test]
fn labels_key_and_map_without_labels() {
    let (map, key) = extract_labels_key_and_map(None);
    assert_eq!(key, "single-value-with-no-labels");
    assert_eq!(map.get("key").unwrap(), "single-value-with-no-labels");
    let (map, key) = extract_labels_key_and_map(Some(String::from("a=\"b\"")));
    assert_eq!(key, "a=\"b\"");
    assert_eq!(map.get("a").unwrap(), "b");
}

#[test]
fn sample_values() {
    let v = extract_value(&String::from("metric_1{shard=\"0\"} 10.000007")).unwrap();
    assert_eq!(v.text, "10.000007");
    assert_eq!(v.text.parse::<f64>().unwrap(), 10.000007);
    for ok in ["m 1", "m -2.5e-3", "m +Inf", "m NaN", "m .5", "m 5.", "m 1E10", "m infinity"] {
        let v = extract_value(&String::from(ok)).unwrap();
        assert!(v.text.parse::<f64>().is_ok(), "{}", ok);
    }
    for bad in ["m", "", "m abc", "m 1e", "m .", "m 1.2.3", "m --1", "m e5"] {
        assert_eq!(extract_value(&String::from(bad)).unwrap_err(), DecodeError::InvalidValue, "{}", bad);
    }
}

#[test]
fn sample_counts() {
    let count = |s: &str| extract_count(&format!("m {}", s));
    assert_eq!(count("6563").unwrap(), 6563);
    assert_eq!(count("12.9").unwrap(), 12);
    assert_eq!(count("1e3").unwrap(), 1000);
    assert_eq!(count("2.5E1").unwrap(), 25);
    assert_eq!(count("1.5e+1").unwrap(), 15);
    assert_eq!(count("+7").unwrap(), 7);
    assert_eq!(count(".9").unwrap(), 0);
    assert_eq!(count("1e-1").unwrap(), 0);
    assert_eq!(count("123456e-3").unwrap(), 123);
    assert_eq!(count("18446744073709551615").unwrap(), u64::MAX);
    assert_eq!(count("18446744073709551616").unwrap(), u64::MAX);
    assert_eq!(count("1e999999999999999999999").unwrap(), u64::MAX);
    assert_eq!(count("0e999999999999999999999").unwrap(), 0);
    assert_eq!(count("5e-999999999999999999999").unwrap(), 0);
    for bad in ["-1", "-0", "+Inf", "NaN", "1e", "abc", "1.2.3"] {
        assert_eq!(count(bad).unwrap_err(), DecodeError::InvalidValue, "{}", bad);
    }
}

#[test]
fn type_word_is_the_token_after_the_name() {
    assert_eq!(extract_type("# TYPE m gauge extra").unwrap(), "gauge");
    let lines = lines_of(&["# HELP m M", "# TYPE m gauge extra", "m 1"]);
    let m = decode_single_scrape_metric(lines, 1).unwrap();
    assert_eq!(m.metric_type, MetricType::Gauge);
}

#[test]
fn histogram_counts_with_exponents() {
    let lines = lines_of(&[
        "# HELP h H",
        "# TYPE h histogram",
        "h_bucket{le=\"1\"} 2e2",
        "h_bucket{le=\"+Inf\"} 1e3",
        "h_sum 12.5",
        "h_count{} 1e3",
    ]);
    let m = decode_single_scrape_metric(lines, 1).unwrap();
    match m.value_per_labels.get("").unwrap() {
        Sample::HistogramSample(h) => {
            let expected = vec![Bucket::new(String::from("1"), 200), Bucket::new(String::from("+Inf"), 1000)];
            assert_eq!(h.bucket_values, expected);
            assert_eq!(h.count, 1000);
        }
        _ => panic!("expected a histogram sample"),
    }
}

#[test]
fn blocks_and_types_that_do_not_decode() {
    let ts = 7;
    assert_eq!(decode_single_scrape_metric(vec![], ts).unwrap_err(), DecodeError::MalformedHelp);
    let one = lines_of(&["# HELP a b"]);
    assert_eq!(decode_single_scrape_metric(one, ts).unwrap_err(), DecodeError::MalformedType);
    let no_help = lines_of(&["a 1", "# TYPE a gauge"]);
    assert_eq!(decode_single_scrape_metric(no_help, ts).unwrap_err(), DecodeError::MalformedHelp);
    let unknown = lines_of(&["# HELP a b", "# TYPE a summary", "a 1"]);
    assert_eq!(decode_single_scrape_metric(unknown, ts).unwrap_err(), DecodeError::UnknownType);
}

#[test]
fn gauge_and_counter_samples() {
    let lines = lines_of(&[
        "# HELP c Requests",
        "# TYPE c counter",
        "c{path=\"/\"} 5",
        "c not-a-number",
        "",
        "c 8",
    ]);
    let m = decode_single_scrape_metric(lines, 42).unwrap();
    assert_eq!(m.metric_type, MetricType::Counter);
    assert_eq!(m.docstring, "Requests");
    assert_eq!(m.value_per_labels.len(), 2);
    match m.value_per_labels.get("path=\"/\"").unwrap() {
        Sample::CounterSample(s) => {
            assert_eq!(s.timestamp, 42);
            assert_eq!(s.value.text, "5");
        }
        _ => panic!("expected a counter sample"),
    }
    match m.value_per_labels.get("single-value-with-no-labels").unwrap() {
        Sample::CounterSample(s) => assert_eq!(s.value.text, "8"),
        _ => panic!("expected a counter sample"),
    }
    let lines = lines_of(&["# HELP g G", "# TYPE g gauge"]);
    let m = decode_single_scrape_metric(lines, 1).unwrap();
    assert_eq!(m.metric_type, MetricType::Gauge);
    assert_eq!(m.value_per_labels.len(), 0);
}

#[test]
fn histogram_group_without_sum_is_dropped() {
    let lines = lines_of(&[
        "# HELP h H",
        "# TYPE h histogram",
        "h_count{a=\"1\"} 3",
        "h_bucket{a=\"2\",le=\"1\"} 1",
        "h_bucket{a=\"2\"} 9",
        "h_sum{a=\"2\"} 1.5",
        "h_count{a=\"2\"} 1",
        "h_bucket{a=\"3\",le=\"1\"} 1",
    ]);
    let m = decode_single_scrape_metric(lines, 1).unwrap();
    assert_eq!(m.value_per_labels.len(), 1);
    match m.value_per_labels.get("a=\"2\"").unwrap() {
        Sample::HistogramSample(h) => {
            assert_eq!(h.bucket_values, vec![Bucket::new(String::from("1"), 1)]);
            assert_eq!(h.sum.text, "1.5");
            assert_eq!(h.count, 1);
        }
        _ => panic!("expected a histogram sample"),
    }
}

#[test]
fn split_metric_lines_partitions_the_input() {
    let lines = generate_metric_lines();
    let blocks = split_metric_lines(lines.clone());
    let helps = lines.iter().filter(|l| l.starts_with("# HELP")).count();
    assert_eq!(blocks.len(), helps);
    let joined: Vec<String> = blocks.iter().flatten().cloned().collect();
    assert_eq!(joined, lines);
    assert!(split_metric_lines(vec![]).is_empty());
    assert_eq!(split_metric_lines(lines_of(&["# HELP a b"])).len(), 1);
    let prefixed = split_metric_lines(lines_of(&["junk", "# HELP a b", "x", "# HELP c d"]));
    assert_eq!(prefixed.len(), 3);
    assert_eq!(prefixed[0], lines_of(&["junk"]));
    assert_eq!(prefixed[1], lines_of(&["# HELP a b", "x"]));
}
