use time_db::entry::Entry;
use time_db::expression::Expression;
use time_db::query::QueryResponse;
use time_db::value::Value;

fn f(x: f32) -> Value {
    Value::Float(x.to_bits())
}

#[test]
fn test_eq_expression() {
    let entry = Entry {
        timestamp: 123456,
        fields: vec![("temperature".to_string(), Value::Int(25))],
        tags: vec![],
    };

    let expr = Expression::Eq("temperature".to_string(), Value::Int(25));
    assert!(expr.evaluate(&entry));

    let expr_not_equal = Expression::Eq("temperature".to_string(), Value::Int(30));
    assert!(!expr_not_equal.evaluate(&entry));
}

#[test]
fn test_gt_expression() {
    let entry = Entry {
        timestamp: 123456,
        fields: vec![
            ("temperature".to_string(), Value::Int(25)),
            ("temperature_f".to_string(), f(25.0)),
        ],
        tags: vec![],
    };

    let expr_int = Expression::Gt("temperature".to_string(), Value::Int(24));
    assert!(expr_int.evaluate(&entry));

    let expr_float = Expression::Gt("temperature".to_string(), f(24.0));
    assert!(expr_float.evaluate(&entry));

    let expr_int_2 = Expression::Gt("temperature_f".to_string(), Value::Int(24));
    assert!(expr_int_2.evaluate(&entry));

    let expr_float_2 = Expression::Gt("temperature_f".to_string(), f(24.0));
    assert!(expr_float_2.evaluate(&entry));

    let expr_not_equal = Expression::Eq("temperature".to_string(), Value::Int(30));
    assert!(!expr_not_equal.evaluate(&entry));
}

#[test]
fn test_tag_filter() {
    let entry = Entry {
        timestamp: 123456,
        fields: vec![
            ("temperature".to_string(), Value::Int(25)),
            ("temperature_f".to_string(), f(25.0)),
        ],
        tags: vec![],
    };

    let mut query_response = QueryResponse::new();
    query_response.items = vec![entry];

    let tag_filter = Expression::TagFilter(vec!["temperature".to_string()]);
    tag_filter.filter(&mut query_response);

    assert_eq!(query_response.tags.len(), 1);
}

fn sample() -> Entry {
    Entry {
        timestamp: 1,
        fields: vec![
            ("i".to_string(), Value::Int(5)),
            ("u".to_string(), Value::UInt(5)),
            ("x".to_string(), f(2.5)),
            ("nan".to_string(), f(f32::NAN)),
            ("s".to_string(), Value::String("a".to_string())),
        ],
        tags: vec![],
    }
}

#[test]
fn equality_never_crosses_variants() {
    let e = sample();
    assert!(!Expression::Eq("i".to_string(), Value::UInt(5)).evaluate(&e));
    assert!(!Expression::Eq("i".to_string(), f(5.0)).evaluate(&e));
    assert!(Expression::Eq("u".to_string(), Value::UInt(5)).evaluate(&e));
    assert!(!Expression::Eq("nan".to_string(), f(f32::NAN)).evaluate(&e));
    assert!(Expression::Eq("s".to_string(), Value::String("a".to_string())).evaluate(&e));
}

#[test]
fn ordering_only_between_numeric_pairs() {
    let e = sample();
    assert!(!Expression::Gt("u".to_string(), Value::Int(1)).evaluate(&e));
    assert!(!Expression::Lt("i".to_string(), Value::UInt(9)).evaluate(&e));
    assert!(!Expression::Gt("s".to_string(), Value::String("0".to_string())).evaluate(&e));
    assert!(Expression::Ge("i".to_string(), Value::Int(5)).evaluate(&e));
    assert!(Expression::Le("u".to_string(), Value::UInt(5)).evaluate(&e));
    assert!(Expression::Lt("x".to_string(), Value::Int(3)).evaluate(&e));
    assert!(!Expression::Lt("nan".to_string(), f(1.0)).evaluate(&e));
    assert!(!Expression::Ge("nan".to_string(), f(1.0)).evaluate(&e));
    assert!(!Expression::Gt("missing".to_string(), Value::Int(0)).evaluate(&e));
}

#[test]
fn int_against_float_goes_through_f32() {
    // 16777217 becomes 16777216.0 as an f32.
    let e = Entry { timestamp: 1, fields: vec![("n".to_string(), Value::Int(16_777_217))], tags: vec![] };
    assert!(!Expression::Gt("n".to_string(), f(16_777_216.0)).evaluate(&e));
    assert!(Expression::Ge("n".to_string(), f(16_777_216.0)).evaluate(&e));
    let neg = Entry { timestamp: 1, fields: vec![("n".to_string(), Value::Int(-3))], tags: vec![] };
    assert!(Expression::Lt("n".to_string(), f(-2.5)).evaluate(&neg));
    assert!(Expression::Gt("n".to_string(), f(-3.5)).evaluate(&neg));
}

#[test]
fn int_to_f32_bits_rounds_like_a_cast() {
    for v in [0i128, 1, -1, 7, 16_777_217, 16_777_219, -16_777_219, 123_456_789_012, i128::MAX, i128::MIN] {
        assert_eq!(time_db::value::f32_bits_from_int(v), (v as f32).to_bits(), "value {}", v);
    }
}

#[test]
fn boolean_combinators() {
    let e = sample();
    let t = || Expression::Eq("i".to_string(), Value::Int(5));
    let fl = || Expression::Eq("i".to_string(), Value::Int(6));
    assert!(Expression::And(Box::new(t()), Box::new(t())).evaluate(&e));
    assert!(!Expression::And(Box::new(t()), Box::new(fl())).evaluate(&e));
    assert!(Expression::Or(Box::new(fl()), Box::new(t())).evaluate(&e));
    assert!(!Expression::Not(Box::new(t())).evaluate(&e));
    assert!(Expression::Not(Box::new(Expression::Not(Box::new(t())))).evaluate(&e));
    assert!(Expression::TagFilter(vec![]).evaluate(&e));
    assert!(Expression::FieldFilter(vec!["zz".to_string()]).evaluate(&e));
}

#[test]
fn name_declarations_are_merged() {
    let mut q = QueryResponse::new();
    Expression::TagFilter(vec!["a".to_string(), "b".to_string()]).filter(&mut q);
    Expression::TagFilter(vec!["b".to_string(), "c".to_string()]).filter(&mut q);
    assert_eq!(q.tags, vec!["a".to_string(), "b".to_string(), "c".to_string()]);
    // A field declaration joins the tag keep-list to its names.
    Expression::FieldFilter(vec!["x".to_string()]).filter(&mut q);
    assert_eq!(q.fields, vec!["a".to_string(), "b".to_string(), "c".to_string(), "x".to_string()]);
    Expression::Eq("a".to_string(), Value::Int(1)).filter(&mut q);
    assert_eq!(q.tags.len(), 3);
}
