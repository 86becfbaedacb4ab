use outflux::{encode_batch, Error, FieldValue, FloatText, Measurement, OrderedMap};
use std::time::{Duration, SystemTime};

fn one_field() -> OrderedMap<FieldValue> {
    let mut fields: OrderedMap<FieldValue> = OrderedMap::new();
    fields.insert("value".to_string(), FieldValue::Integer(1));
    fields
}

fn at_epoch(name: &str) -> Measurement {
    Measurement::builder(name)
        .fields(one_field())
        .build_at(Ok(0))
        .unwrap()
}

#[test]
fn build_fails_when_fields_were_never_set() {
    let result = Measurement::builder("m").build();
    assert!(matches!(
        result,
        Err(Error::AtLeastOneMeasurementFieldRequired)
    ));
    let result = Measurement::builder("m")
        .tags(OrderedMap::new())
        .timestamp(SystemTime::UNIX_EPOCH)
        .unwrap()
        .build();
    assert!(matches!(
        result,
        Err(Error::AtLeastOneMeasurementFieldRequired)
    ));
}

#[test]
fn build_fails_when_fields_are_empty() {
    let result = Measurement::builder("m").fields(OrderedMap::new()).build();
    assert!(matches!(
        result,
        Err(Error::AtLeastOneMeasurementFieldRequired)
    ));
    let result = Measurement::builder("m")
        .fields(OrderedMap::new())
        .build_at(Ok(5));
    assert!(matches!(
        result,
        Err(Error::AtLeastOneMeasurementFieldRequired)
    ));
}

#[test]
fn timestamp_before_the_epoch_is_refused() {
    let before = SystemTime::UNIX_EPOCH - Duration::from_secs(1);
    let result = Measurement::builder("m").fields(one_field()).timestamp(before);
    assert!(matches!(result, Err(Error::SystemTimeError(_))));
}

#[test]
fn clock_error_is_handed_on() {
    let clock_error = SystemTime::UNIX_EPOCH
        .duration_since(SystemTime::UNIX_EPOCH + Duration::from_secs(1))
        .unwrap_err();
    let result = Measurement::builder("m")
        .fields(one_field())
        .build_at(Err(clock_error.clone()));
    assert!(matches!(result, Err(Error::SystemTimeError(_))));
    let result = Measurement::builder("m")
        .fields(one_field())
        .timestamp_since_epoch(Err(clock_error.clone()));
    assert!(matches!(result, Err(Error::SystemTimeError(_))));
    let result = Measurement::builder("m").build_at(Err(clock_error));
    assert!(matches!(
        result,
        Err(Error::AtLeastOneMeasurementFieldRequired)
    ));
}

#[test]
fn timestamp_is_counted_in_nanoseconds() {
    let instant = SystemTime::UNIX_EPOCH + Duration::new(1, 5);
    let measurement = Measurement::builder("m")
        .fields(one_field())
        .timestamp(instant)
        .unwrap()
        .build()
        .unwrap();
    assert_eq!(measurement.to_string(), "m value=1i 1000000005");
}

#[test]
fn timestamp_that_was_set_wins_over_the_clock() {
    let measurement = Measurement::builder("m")
        .fields(one_field())
        .timestamp_since_epoch(Ok(42))
        .unwrap()
        .build_at(Ok(7))
        .unwrap();
    assert_eq!(measurement.to_string(), "m value=1i 42");
    let measurement = Measurement::builder("m")
        .fields(one_field())
        .build_at(Ok(7))
        .unwrap();
    assert_eq!(measurement.to_string(), "m value=1i 7");
}

fn timestamp_of(line: &str) -> u128 {
    line.rsplit(' ').next().unwrap().parse().unwrap()
}

fn clock() -> u128 {
    SystemTime::now()
        .duration_since(SystemTime::UNIX_EPOCH)
        .unwrap()
        .as_nanos()
}

#[test]
fn default_timestamp_is_the_current_time() {
    let before = clock();
    let first = Measurement::builder("m")
        .fields(one_field())
        .build()
        .unwrap();
    let first_line = first.to_string();
    while clock() <= timestamp_of(&first_line) {}
    let second = Measurement::builder("m")
        .fields(one_field())
        .build()
        .unwrap();
    let after = clock();
    let first = timestamp_of(&first.to_string());
    let second = timestamp_of(&second.to_string());
    assert!(before <= first);
    assert!(first < second);
    assert!(second <= after);
}

#[test]
fn last_call_of_fields_and_tags_wins() {
    let mut other: OrderedMap<FieldValue> = OrderedMap::new();
    other.insert("other".to_string(), FieldValue::Boolean(true));
    let mut first_tags: OrderedMap<String> = OrderedMap::new();
    first_tags.insert("a".to_string(), "1".to_string());
    let mut second_tags: OrderedMap<String> = OrderedMap::new();
    second_tags.insert("b".to_string(), "2".to_string());
    let measurement = Measurement::builder("m")
        .fields(one_field())
        .tags(first_tags)
        .fields(other)
        .tags(second_tags)
        .build_at(Ok(3))
        .unwrap();
    assert_eq!(measurement.to_string(), "m,b=2 other=t 3");
}

#[test]
fn empty_tags_leave_no_comma() {
    let measurement = Measurement::builder("m")
        .fields(one_field())
        .tags(OrderedMap::new())
        .build_at(Ok(3))
        .unwrap();
    assert_eq!(measurement.to_string(), "m value=1i 3");
}

#[test]
fn entries_come_out_in_key_order() {
    let mut fields: OrderedMap<FieldValue> = OrderedMap::new();
    fields.insert("b".to_string(), FieldValue::Integer(1));
    fields.insert("ab".to_string(), FieldValue::Integer(2));
    fields.insert("a".to_string(), FieldValue::Integer(3));
    fields.insert("B".to_string(), FieldValue::Integer(4));
    fields.insert("é".to_string(), FieldValue::Integer(5));
    fields.insert("z".to_string(), FieldValue::Integer(6));
    let mut tags: OrderedMap<String> = OrderedMap::new();
    tags.insert("host".to_string(), "b".to_string());
    tags.insert("dc".to_string(), "a".to_string());
    let measurement = Measurement::builder("m")
        .fields(fields)
        .tags(tags)
        .build_at(Ok(9))
        .unwrap();
    assert_eq!(
        measurement.to_string(),
        "m,dc=a,host=b B=4i,a=3i,ab=2i,b=1i,z=6i,é=5i 9"
    );
}

#[test]
fn insert_replaces_the_value_of_a_key() {
    let mut tags: OrderedMap<String> = OrderedMap::new();
    assert!(tags.is_empty());
    tags.insert("k".to_string(), "old".to_string());
    tags.insert("j".to_string(), "x".to_string());
    tags.insert("k".to_string(), "new".to_string());
    assert!(!tags.is_empty());
    assert_eq!(tags.len(), 2);
    assert_eq!(tags.entry(0), &("j".to_string(), "x".to_string()));
    assert_eq!(tags.entry(1), &("k".to_string(), "new".to_string()));
}

#[test]
fn field_keys_and_tags_are_escaped_on_the_line() {
    let mut fields: OrderedMap<FieldValue> = OrderedMap::new();
    fields.insert("a,b=c d".to_string(), FieldValue::Float(FloatText::new("2.5".to_string()).unwrap()));
    let mut tags: OrderedMap<String> = OrderedMap::new();
    tags.insert("k=1".to_string(), "v,w".to_string());
    let measurement = Measurement::builder("n=1,x y")
        .fields(fields)
        .tags(tags)
        .build_at(Ok(1))
        .unwrap();
    assert_eq!(
        measurement.to_string(),
        "n=1\\,x\\ y,k\\=1=v\\,w a\\,b\\=c\\ d=2.5 1"
    );
}

#[test]
fn batch_of_none_is_empty() {
    assert_eq!(encode_batch(&[]), "");
}

#[test]
fn batch_of_one_is_its_line() {
    assert_eq!(encode_batch(&[at_epoch("a")]), "a value=1i 0");
}

#[test]
fn batch_has_one_newline_between_lines_and_none_at_the_end() {
    let batch = encode_batch(&[at_epoch("a"), at_epoch("b"), at_epoch("c")]);
    assert_eq!(batch, "a value=1i 0\nb value=1i 0\nc value=1i 0");
    assert_eq!(batch.matches('\n').count(), 2);
    assert!(!batch.ends_with('\n'));
    assert!(!batch.starts_with('\n'));
}

#[test]
fn line_has_no_delimiter_too_many_and_none_too_few() {
    let mut fields: OrderedMap<FieldValue> = OrderedMap::new();
    fields.insert("a".to_string(), FieldValue::Integer(-3));
    fields.insert("b".to_string(), FieldValue::String("x\\\"y".to_string()));
    fields.insert(
        "c".to_string(),
        FieldValue::Float(FloatText::new("-0.5".to_string()).unwrap()),
    );
    let mut tags: OrderedMap<String> = OrderedMap::new();
    tags.insert("host".to_string(), "é".to_string());
    tags.insert("zone".to_string(), "z1".to_string());
    let line = Measurement::builder("cpu")
        .fields(fields)
        .tags(tags)
        .build_at(Ok(77))
        .unwrap()
        .to_string();
    assert_eq!(
        line,
        "cpu,host=é,zone=z1 a=-3i,b=\"x\\\\\\\"y\",c=-0.5 77"
    );
    assert_eq!(line.matches(' ').count(), 2);
    assert_eq!(line.matches(',').count(), 2 + 3 - 1);
    assert_eq!(line.matches('=').count(), 2 + 3);
    assert!(line.contains("host=é"));
}
