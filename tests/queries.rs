use time_db::aggregate::{aggregate_entries, parse_window_size, AggregateFunction, QueryError};
use time_db::action::Action;
use time_db::entry::Entry;
use time_db::expression::Expression;
use time_db::timedb::TimeDb;
use time_db::value::Value;

fn reduce(function: AggregateFunction, values: &Vec<Value>) -> Value {
    let numbers: Vec<f64> = values
        .iter()
        .filter_map(|v| match v {
            Value::Int(x) => Some(*x as f64),
            Value::UInt(x) => Some(*x as f64),
            Value::Float(b) => Some(f32::from_bits(*b) as f64),
            _ => None,
        })
        .collect();
    if numbers.is_empty() {
        return Value::Null;
    }
    let r = match function {
        AggregateFunction::Sum => numbers.iter().sum::<f64>(),
        AggregateFunction::Mean => numbers.iter().sum::<f64>() / numbers.len() as f64,
        AggregateFunction::Max => numbers.iter().cloned().fold(f64::MIN, f64::max),
        AggregateFunction::Min => numbers.iter().cloned().fold(f64::MAX, f64::min),
    };
    Value::Float((r as f32).to_bits())
}

fn float(x: f32) -> Value {
    Value::Float(x.to_bits())
}

fn entry(t: u64, fields: Vec<(&str, Value)>, tags: Vec<(&str, Value)>) -> Entry {
    Entry {
        timestamp: t,
        fields: fields.into_iter().map(|(k, v)| (k.to_string(), v)).collect(),
        tags: tags.into_iter().map(|(k, v)| (k.to_string(), v)).collect(),
    }
}

fn temps() -> Vec<Entry> {
    vec![
        entry(0, vec![("temp", Value::Int(10))], vec![("room", Value::String("a".to_string()))]),
        entry(1000, vec![("temp", Value::Int(20))], vec![]),
        entry(2000, vec![("temp", Value::Int(30))], vec![]),
    ]
}

#[test]
fn range_returns_exactly_the_entries_inside_in_order() {
    let mut db = TimeDb::new();
    for t in [50u64, 10, 40, 20, 30] {
        db.insert("m", entry(t, vec![("v", Value::UInt(t as u128))], vec![]));
    }
    let r = db.run_query("m", &vec![Action::Range(20, Some(40))], &reduce).unwrap();
    let ts: Vec<u64> = r.iter().map(|e| e.timestamp).collect();
    assert_eq!(ts, vec![20, 30, 40]);
    let r = db.run_query("m", &vec![Action::Range(35, None)], &reduce).unwrap();
    let ts: Vec<u64> = r.iter().map(|e| e.timestamp).collect();
    assert_eq!(ts, vec![40, 50]);
    let r = db
        .run_query("m", &vec![Action::Range(0, None), Action::Range(15, Some(25))], &reduce)
        .unwrap();
    assert_eq!(r.len(), 1);
    assert_eq!(r[0].timestamp, 20);
}

#[test]
fn round_trip_over_all_time() {
    let mut db = TimeDb::new();
    let written = temps();
    db.insert_bulk("m", temps());
    let r = db.run_query("m", &vec![Action::Range(0, Some(u64::MAX))], &reduce).unwrap();
    assert_eq!(r.len(), written.len());
    for (a, b) in r.iter().zip(written.iter()) {
        assert_eq!(a.timestamp, b.timestamp);
        assert_eq!(a.fields, b.fields);
        assert_eq!(a.tags, b.tags);
    }
}

#[test]
fn eq_filter_keeps_the_matching_subset() {
    let mut db = TimeDb::new();
    db.insert_bulk("m", temps());
    let r = db
        .run_query("m", &vec![Action::Filter(Expression::Eq("temp".to_string(), Value::Int(20)))], &reduce)
        .unwrap();
    assert_eq!(r.len(), 1);
    assert_eq!(r[0].timestamp, 1000);
    let not_not = Expression::Not(Box::new(Expression::Not(Box::new(Expression::Eq(
        "temp".to_string(),
        Value::Int(20),
    )))));
    let r2 = db.run_query("m", &vec![Action::Filter(not_not)], &reduce).unwrap();
    assert_eq!(r2.len(), 1);
    assert_eq!(r2[0].timestamp, 1000);
}

#[test]
fn projection_applies_at_the_end() {
    let mut db = TimeDb::new();
    db.insert("m", entry(1, vec![("a", Value::Int(1)), ("b", Value::Int(2))], vec![("x", Value::Bool(true)), ("y", Value::Null)]));
    let r = db
        .run_query(
            "m",
            &vec![Action::Range(0, None), Action::Filter(Expression::TagFilter(vec!["y".to_string()]))],
            &reduce,
        )
        .unwrap();
    assert_eq!(r[0].tags, vec![("y".to_string(), Value::Null)]);
    assert_eq!(r[0].fields.len(), 2);
}

#[test]
fn duplicate_timestamp_overwrites() {
    let mut db = TimeDb::new();
    db.insert("m", entry(5, vec![("v", Value::Int(1))], vec![]));
    db.insert("m", entry(5, vec![("v", Value::Int(2))], vec![]));
    let r = db.run_query("m", &vec![Action::Range(0, None)], &reduce).unwrap();
    assert_eq!(r.len(), 1);
    assert_eq!(r[0].fields, vec![("v".to_string(), Value::Int(2))]);
}

#[test]
fn aggregation_by_windows_of_entries() {
    let mut db = TimeDb::new();
    db.insert_bulk("m", temps());
    let r = db
        .run_query("m", &vec![Action::AggregateWindow("2000s".to_string(), AggregateFunction::Mean)], &reduce)
        .unwrap();
    assert_eq!(r.len(), 2);
    assert_eq!(r[0].timestamp, 0);
    assert_eq!(r[0].fields, vec![("temp".to_string(), float(15.0))]);
    assert!(r[0].tags.is_empty());
    assert_eq!(r[1].timestamp, 2000);
    assert_eq!(r[1].fields, vec![("temp".to_string(), float(30.0))]);
}

#[test]
fn aggregation_functions() {
    let es = temps();
    let sum = aggregate_entries(&es, "1h", &AggregateFunction::Sum, &reduce).unwrap();
    assert_eq!(sum.len(), 1);
    assert_eq!(sum[0].fields, vec![("temp".to_string(), float(60.0))]);
    let max = aggregate_entries(&es, "1d", &AggregateFunction::Max, &reduce).unwrap();
    assert_eq!(max[0].fields, vec![("temp".to_string(), float(30.0))]);
    let min = aggregate_entries(&es, "34m", &AggregateFunction::Min, &reduce).unwrap();
    assert_eq!(min.len(), 1);
    assert_eq!(min[0].fields, vec![("temp".to_string(), float(10.0))]);
    let per_entry = aggregate_entries(&es, "1s", &AggregateFunction::Sum, &reduce).unwrap();
    assert_eq!(per_entry.len(), 3);
}

#[test]
fn aggregation_sorts_its_input() {
    let es = vec![
        entry(2000, vec![("temp", Value::Int(30))], vec![]),
        entry(0, vec![("temp", Value::Int(10))], vec![]),
        entry(1000, vec![("temp", Value::Int(20))], vec![]),
    ];
    let r = aggregate_entries(&es, "2000s", &AggregateFunction::Mean, &reduce).unwrap();
    assert_eq!(r.len(), 2);
    assert_eq!(r[0].timestamp, 0);
    assert_eq!(r[0].fields, vec![("temp".to_string(), float(15.0))]);
}

#[test]
fn one_non_numeric_value_fails_the_query() {
    let mut db = TimeDb::new();
    db.insert_bulk("m", temps());
    db.insert("m", entry(9000, vec![("temp", Value::Int(1)), ("note", Value::String("x".to_string()))], vec![]));
    let r = db.run_query(
        "m",
        &vec![Action::AggregateWindow("2000s".to_string(), AggregateFunction::Mean)],
        &reduce,
    );
    assert_eq!(r.unwrap_err(), QueryError::NonNumeric);
}

#[test]
fn unreadable_window_gives_nothing() {
    let mut db = TimeDb::new();
    db.insert_bulk("m", temps());
    db.insert("m", entry(9000, vec![("note", Value::String("x".to_string()))], vec![]));
    let r = db
        .run_query("m", &vec![Action::AggregateWindow("5x".to_string(), AggregateFunction::Sum)], &reduce)
        .unwrap();
    assert!(r.is_empty());
}

#[test]
fn window_sizes() {
    assert_eq!(parse_window_size("5x"), None);
    assert_eq!(parse_window_size(""), None);
    assert_eq!(parse_window_size("s"), None);
    assert_eq!(parse_window_size("+5s"), None);
    assert_eq!(parse_window_size("5s"), Some(5));
    assert_eq!(parse_window_size("2m"), Some(120));
    assert_eq!(parse_window_size("3h"), Some(10800));
    assert_eq!(parse_window_size("1d"), Some(86400));
    assert_eq!(parse_window_size("18446744073709551615s"), Some(u64::MAX));
    assert_eq!(parse_window_size("18446744073709551616s"), None);
    assert_eq!(parse_window_size("18446744073709551615m"), None);
    assert_eq!(parse_window_size("5é"), None);
}

#[test]
fn unknown_series_gives_an_empty_result() {
    let mut db = TimeDb::new();
    db.insert_bulk("other", temps());
    for actions in [
        vec![Action::Range(0, None)],
        vec![Action::Filter(Expression::Eq("temp".to_string(), Value::Int(10)))],
        vec![Action::AggregateWindow("1s".to_string(), AggregateFunction::Sum)],
    ] {
        assert!(db.run_query("never", &actions, &reduce).unwrap().is_empty());
    }
}

#[test]
fn empty_pipeline_fails() {
    let mut db = TimeDb::new();
    assert_eq!(db.run_query("m", &vec![], &reduce).unwrap_err(), QueryError::NoResult);
}

#[test]
fn zero_window_opens_with_an_empty_window() {
    let r = aggregate_entries(&temps(), "0s", &AggregateFunction::Sum, &reduce).unwrap();
    let ts: Vec<u64> = r.iter().map(|e| e.timestamp).collect();
    assert_eq!(ts, vec![0, 0, 1000, 2000]);
    assert!(r[0].fields.is_empty());
}
