use noir_mobile::witness::{
    marshal, marshal_witness, parse_field_value, parse_witness_index, FieldValue, MarshalError,
};

fn entries(pairs: &[(&str, &str)]) -> Vec<(String, String)> {
    pairs.iter().map(|(k, v)| (k.to_string(), v.to_string())).collect()
}

fn nibbles(map_value: Option<&FieldValue>) -> Option<Vec<u8>> {
    map_value.map(|v| v.nibbles.clone())
}

#[test]
fn marshal_small_scenario() {
    let (bytecode, map) = marshal("ABC", &entries(&[("0", "0x01"), ("1", "0x02")])).unwrap();
    assert_eq!(bytecode, "ABC");
    assert_eq!(map.len(), 2);
    assert_eq!(nibbles(map.get(0)), Some(vec![1]));
    assert_eq!(nibbles(map.get(1)), Some(vec![2]));
    assert_eq!(nibbles(map.get(2)), None);
}

#[test]
fn marshal_is_order_independent() {
    let a = marshal_witness(&entries(&[("0", "0x01"), ("7", "ff"), ("1", "0x02")])).unwrap();
    let b = marshal_witness(&entries(&[("1", "0x02"), ("0", "0x01"), ("7", "ff")])).unwrap();
    let c = marshal_witness(&entries(&[("0", "0x01"), ("7", "ff"), ("1", "0x02")])).unwrap();
    assert_eq!(a, b);
    assert_eq!(a, c);
}

#[test]
fn marshal_aborts_on_bad_key() {
    let r = marshal("ABC", &entries(&[("0", "0x01"), ("one", "0x02"), ("2", "0x03")]));
    assert_eq!(r, Err(MarshalError::InvalidIndex(1)));
    let r = marshal_witness(&entries(&[("-1", "0x01")]));
    assert_eq!(r, Err(MarshalError::InvalidIndex(0)));
}

#[test]
fn marshal_aborts_on_bad_value() {
    let r = marshal_witness(&entries(&[("0", "0x01"), ("1", "0xzz")]));
    assert_eq!(r, Err(MarshalError::InvalidValue(1)));
    let r = marshal_witness(&entries(&[("0", "")]));
    assert_eq!(r, Err(MarshalError::InvalidValue(0)));
}

#[test]
fn marshal_key_checked_before_value() {
    let r = marshal_witness(&entries(&[("x", "zz")]));
    assert_eq!(r, Err(MarshalError::InvalidIndex(0)));
}

#[test]
fn marshal_accepts_plus_key() {
    let m = marshal_witness(&entries(&[("+3", "0x05")])).unwrap();
    assert_eq!(nibbles(m.get(3)), Some(vec![5]));
}

#[test]
fn marshal_empty_entries() {
    let m = marshal_witness(&entries(&[])).unwrap();
    assert_eq!(m.len(), 0);
}

#[test]
fn marshal_later_entry_replaces_earlier() {
    let m = marshal_witness(&entries(&[("1", "0x01"), ("01", "0x02")])).unwrap();
    assert_eq!(m.len(), 1);
    assert_eq!(nibbles(m.get(1)), Some(vec![2]));
}

#[test]
fn index_parsing() {
    assert_eq!(parse_witness_index("0"), Some(0));
    assert_eq!(parse_witness_index("007"), Some(7));
    assert_eq!(parse_witness_index("4294967295"), Some(u32::MAX));
    assert_eq!(parse_witness_index("4294967296"), None);
    assert_eq!(parse_witness_index("99999999999999999999x"), None);
    assert_eq!(parse_witness_index(""), None);
    assert_eq!(parse_witness_index("1a"), None);
    assert_eq!(parse_witness_index(" 1"), None);
    assert_eq!(parse_witness_index("+12"), Some(12));
    assert_eq!(parse_witness_index("+"), None);
    assert_eq!(parse_witness_index("++1"), None);
    assert_eq!(parse_witness_index("1+"), None);
    assert_eq!(parse_witness_index("+4294967296"), None);
}

#[test]
fn field_value_parsing() {
    assert_eq!(parse_field_value("0x01").map(|v| v.nibbles), Some(vec![1]));
    assert_eq!(parse_field_value("0xFF").map(|v| v.nibbles), Some(vec![15, 15]));
    assert_eq!(parse_field_value("abc").map(|v| v.nibbles), Some(vec![10, 11, 12]));
    assert_eq!(parse_field_value("0x000").map(|v| v.nibbles), Some(vec![]));
    assert_eq!(parse_field_value("0"), Some(FieldValue { nibbles: vec![] }));
    assert_eq!(parse_field_value("0x"), None);
    assert_eq!(parse_field_value(""), None);
    assert_eq!(parse_field_value("0X01"), None);
    assert_eq!(parse_field_value("0x0g"), None);
}

#[test]
fn field_value_modulus_bound() {
    let modulus = "30644e72e131a029b85045b68181585d2833e84879b9709143e1f593f0000001";
    let below = "0x30644e72e131a029b85045b68181585d2833e84879b9709143e1f593f0000000";
    assert_eq!(parse_field_value(modulus), None);
    let v = parse_field_value(below).unwrap();
    assert_eq!(v.nibbles.len(), 64);
    assert_eq!(v.nibbles[0], 3);
    assert_eq!(v.nibbles[63], 0);
    let padded = format!("0x0000{}", &below[2..]);
    assert_eq!(parse_field_value(&padded), Some(v));
    let too_long = format!("1{}", "0".repeat(64));
    assert_eq!(parse_field_value(&too_long), None);
    let high = format!("4{}", "0".repeat(63));
    assert_eq!(parse_field_value(&high), None);
}
