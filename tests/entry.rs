use time_db::entry::Entry;
use time_db::value::Value;

#[test]
fn test_retrieving_existing_field_value() {
    let entry = Entry {
        timestamp: 123456,
        fields: vec![("temperature".to_string(), Value::Int(25))],
        tags: vec![],
    };

    assert_eq!(entry.get_value("temperature"), Some(&Value::Int(25)));
}

#[test]
fn test_retrieving_existing_tag_value() {
    let entry = Entry {
        timestamp: 123456,
        tags: vec![("temperature".to_string(), Value::Int(25))],
        fields: vec![],
    };

    assert_eq!(entry.get_value("temperature"), Some(&Value::Int(25)));
}

#[test]
fn tag_wins_over_field_of_the_same_name() {
    let entry = Entry {
        timestamp: 1,
        fields: vec![("k".to_string(), Value::Int(1))],
        tags: vec![("k".to_string(), Value::String("tag".to_string()))],
    };
    assert_eq!(entry.get_value("k"), Some(&Value::String("tag".to_string())));
    assert_eq!(entry.get_value("missing"), None);
}

#[test]
fn copy_keeps_everything() {
    let entry = Entry {
        timestamp: 7,
        fields: vec![("a".to_string(), Value::UInt(3)), ("b".to_string(), Value::Bool(true))],
        tags: vec![("t".to_string(), Value::Null)],
    };
    let c = entry.copy();
    assert_eq!(c.timestamp, 7);
    assert_eq!(c.fields, entry.fields);
    assert_eq!(c.tags, entry.tags);
}
