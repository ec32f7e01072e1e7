//! The buffer and persister: row counts, ordering, header laziness, and the
//! rendered delimited text.

use csv_recorder::recorder::{CsvRecorder, CsvRecorderConfig};
use csv_recorder::value::{Value, ValueMap};

fn config(keys: &[&str]) -> CsvRecorderConfig {
    CsvRecorderConfig {
        file_name: "out.csv".to_string(),
        key_list: keys.iter().map(|k| k.to_string()).collect(),
        time_format: None,
    }
}

fn map_of(entries: &[(&str, Value)]) -> ValueMap {
    let mut m = ValueMap::new();
    for (k, v) in entries {
        m.insert(k.to_string(), v.duplicate());
    }
    m
}

#[test]
fn empty_buffer_is_a_no_op() {
    let mut rec = CsvRecorder::new(config(&["a"]));
    assert!(rec.persist().is_none());
    // Still no header on the next non-empty batch.
    rec.record(1, map_of(&[("a", Value::Integer(1))]));
    let lines = rec.persist().unwrap();
    assert_eq!(lines, vec!["timestamp_utc,a\n".to_string(), "1,1\n".to_string()]);
}

#[test]
fn one_row_per_recorded_snapshot() {
    let mut rec = CsvRecorder::new(config(&["a"]));
    for t in 0..5i64 {
        rec.record(t, map_of(&[("a", Value::Integer(t))]));
    }
    let lines = rec.persist().unwrap();
    // One header plus one line per record() call since the last persist.
    assert_eq!(lines.len(), 1 + 5);
}

#[test]
fn rows_sort_by_timestamp_regardless_of_record_order() {
    let mut rec = CsvRecorder::new(config(&["a"]));
    rec.record(300, map_of(&[("a", Value::Integer(3))]));
    rec.record(100, map_of(&[("a", Value::Integer(1))]));
    rec.record(200, map_of(&[("a", Value::Integer(2))]));
    let lines = rec.persist().unwrap();
    assert_eq!(
        lines,
        vec![
            "timestamp_utc,a\n".to_string(),
            "100,1\n".to_string(),
            "200,2\n".to_string(),
            "300,3\n".to_string(),
        ]
    );
}

#[test]
fn equal_timestamps_keep_insertion_order() {
    let mut rec = CsvRecorder::new(config(&["a"]));
    rec.record(100, map_of(&[("a", Value::Text("first".to_string()))]));
    rec.record(50, map_of(&[("a", Value::Text("early".to_string()))]));
    rec.record(100, map_of(&[("a", Value::Text("second".to_string()))]));
    let lines = rec.persist().unwrap();
    assert_eq!(
        lines,
        vec![
            "timestamp_utc,a\n".to_string(),
            "50,early\n".to_string(),
            "100,first\n".to_string(),
            "100,second\n".to_string(),
        ]
    );
}

#[test]
fn header_appears_only_in_the_first_nonempty_batch() {
    let mut rec = CsvRecorder::new(config(&["a"]));
    rec.record(1, map_of(&[("a", Value::Integer(1))]));
    let first = rec.persist().unwrap();
    assert_eq!(first[0], "timestamp_utc,a\n");
    rec.clear();
    rec.record(2, map_of(&[("a", Value::Integer(2))]));
    let second = rec.persist().unwrap();
    assert_eq!(second, vec!["2,2\n".to_string()]);
}

#[test]
fn clear_empties_the_buffer_only() {
    let mut rec = CsvRecorder::new(config(&["a"]));
    rec.record(1, map_of(&[("a", Value::Integer(1))]));
    rec.persist().unwrap();
    rec.clear();
    assert!(rec.persist().is_none());
}

#[test]
fn failed_write_can_be_retried_without_losing_rows() {
    // persist() keeps the buffer until clear() confirms the write, so a
    // retry renders every row of the batch again, without a second header.
    let mut rec = CsvRecorder::new(config(&["a"]));
    rec.record(7, map_of(&[("a", Value::Integer(7))]));
    let first = rec.persist().unwrap();
    assert_eq!(first.len(), 2);
    let retry = rec.persist().unwrap();
    assert_eq!(retry, vec!["7,7\n".to_string()]);
}

#[test]
fn missing_key_renders_as_empty_field() {
    let mut rec = CsvRecorder::new(config(&["a", "b", "c"]));
    rec.record(1, map_of(&[("a", Value::Integer(1)), ("c", Value::Integer(3))]));
    let lines = rec.persist().unwrap();
    assert_eq!(lines[1], "1,1,,3\n");
}

#[test]
fn unconfigured_keys_are_not_persisted() {
    let mut rec = CsvRecorder::new(config(&["a"]));
    rec.record(1, map_of(&[("a", Value::Integer(1)), ("z", Value::Integer(9))]));
    let lines = rec.persist().unwrap();
    assert_eq!(lines[1], "1,1\n");
}

#[test]
fn binary_values_render_as_empty_fields() {
    let mut rec = CsvRecorder::new(config(&["blob", "a"]));
    rec.record(1, map_of(&[("blob", Value::Bin(vec![1, 2, 3])), ("a", Value::Bit(false))]));
    let lines = rec.persist().unwrap();
    assert_eq!(lines[1], "1,,false\n");
}

#[test]
fn timestamp_formats_with_configured_format() {
    let mut cfg = config(&["a"]);
    cfg.time_format = Some("%Y-%m-%d %H:%M:%S".to_string());
    let mut rec = CsvRecorder::new(cfg);
    rec.record(0, map_of(&[("a", Value::Integer(1))]));
    let lines = rec.persist().unwrap();
    assert_eq!(lines[1], "1970-01-01 00:00:00,1\n");
}

#[test]
fn timestamp_defaults_to_epoch_milliseconds() {
    let mut rec = CsvRecorder::new(config(&[]));
    rec.record(-1, ValueMap::new());
    rec.record(1234567890123, ValueMap::new());
    let lines = rec.persist().unwrap();
    assert_eq!(lines[1], "-1\n");
    assert_eq!(lines[2], "1234567890123\n");
}

#[test]
fn fields_are_quoted_like_the_csv_crate_quotes_them() {
    let mut rec = CsvRecorder::new(config(&["t"]));
    rec.record(1, map_of(&[("t", Value::Text("a,b \"q\"".to_string()))]));
    let lines = rec.persist().unwrap();
    let mut w = csv::Writer::from_writer(Vec::new());
    w.write_record(&["1", "a,b \"q\""]).unwrap();
    let expected = String::from_utf8(w.into_inner().unwrap()).unwrap();
    assert_eq!(lines[1], expected);
}
