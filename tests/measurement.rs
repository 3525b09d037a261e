use rand::Rng;
use time_db::action::Action;
use time_db::aggregate::AggregateFunction;
use time_db::entry::Entry;
use time_db::expression::Expression;
use time_db::measurement::Measurement;
use time_db::value::Value;

fn reduce(function: AggregateFunction, values: &Vec<Value>) -> Value {
    let numbers: Vec<f64> = values
        .iter()
        .filter_map(|v| match v {
            Value::Int(x) => Some(*x as f64),
            Value::UInt(x) => Some(*x as f64),
            Value::Float(b) => Some(f32::from_bits(*b) as f64),
            _ => None,
        })
        .collect();
    if numbers.is_empty() {
        return Value::Null;
    }
    let r = match function {
        AggregateFunction::Sum => numbers.iter().sum::<f64>(),
        AggregateFunction::Mean => numbers.iter().sum::<f64>() / numbers.len() as f64,
        AggregateFunction::Max => numbers.iter().cloned().fold(f64::MIN, f64::max),
        AggregateFunction::Min => numbers.iter().cloned().fold(f64::MAX, f64::min),
    };
    Value::Float((r as f32).to_bits())
}

fn create_test_entries() -> Vec<Entry> {
    let mut entries = Vec::new();
    let total_entries = 1000;
    let year_in_seconds = 365 * 24 * 60 * 60;
    let interval = year_in_seconds / total_entries;

    let mut rng = rand::thread_rng();

    for i in 0..total_entries {
        let timestamp = i as u64 * interval + 1625230000;
        let entry = Entry {
            timestamp,
            fields: vec![
                ("temperature".to_string(), Value::Int(rng.gen_range(15..30))),
                ("humidity".to_string(), Value::Int(rng.gen_range(30..60))),
            ],
            tags: vec![
                ("sensor_id".to_string(), Value::String(format!("sensor_{}", rng.gen_range(1..10)))),
                ("location".to_string(), Value::String("test_location".to_string())),
            ],
        };
        entries.push(entry);
    }

    entries
}

#[test]
fn test_measurement_new() {
    let measurement = Measurement::new("test_measurement");

    assert_eq!(measurement.name, "test_measurement");
    assert!(measurement.list_entries().is_empty());
}

#[test]
fn test_add_entry() {
    let mut measurement = Measurement::new("test_measurement");
    let fields = vec![("field1".to_string(), Value::Int(42))];
    let tags = vec![("tag1".to_string(), Value::String("value1".to_string()))];

    measurement.add_entry(123456, &fields, &tags);
    let entries = measurement.list_entries();

    assert_eq!(entries.len(), 1);
    assert_eq!(entries[0].timestamp, 123456);
    assert_eq!(entries[0].fields, fields);
    assert_eq!(entries[0].tags, tags);
}

#[test]
fn test_list_entries() {
    let mut measurement = Measurement::new("test_measurement");
    let entries = create_test_entries();
    for entry in entries {
        measurement.add_entry(entry.timestamp, &entry.fields, &entry.tags);
    }

    let entries = measurement.list_entries();
    assert_eq!(entries.len(), 1000);
}

#[test]
fn test_apply_actions() {
    let mut measurement = Measurement::new("test_measurement");
    let entries = create_test_entries();
    for entry in entries {
        measurement.add_entry(entry.timestamp, &entry.fields, &entry.tags);
    }

    let start = 1625230000;
    let range = 3 * 30 * 24 * 60 * 60;
    let end = start + range;
    let sensor_id = "sensor_6".to_string();

    let action = Action::Range(start, Some(end));
    let sensor2 = Action::Filter(Expression::Eq(
        "sensor_id".to_string(),
        Value::String(sensor_id.clone()),
    ));

    let actions = vec![action, sensor2];

    if let Ok(Some(query_response)) = measurement.apply(&actions, &reduce) {
        println!("Items {} ", query_response.items.len());

        for entry in query_response.items {
            assert!(entry.timestamp >= start && entry.timestamp <= end);

            let sensor_val = entry.get_value("sensor_id");

            match sensor_val {
                Some(sensor_val) => assert_eq!(sensor_val, &Value::String(sensor_id.clone())),
                _ => panic!("Incorrect sensor value"),
            }
        }
    } else {
        panic!("Action application failed");
    }
}

#[test]
fn entries_come_back_in_timestamp_order() {
    let mut m = Measurement::new("m");
    for t in [30u64, 10, 20, 40] {
        m.add_entry(t, &vec![("v".to_string(), Value::UInt(t as u128))], &vec![]);
    }
    let ts: Vec<u64> = m.list_entries().iter().map(|e| e.timestamp).collect();
    assert_eq!(ts, vec![10, 20, 30, 40]);
}

#[test]
fn empty_pipeline_gives_no_response() {
    let m = Measurement::new("m");
    assert!(matches!(m.apply(&vec![], &reduce), Ok(None)));
}
