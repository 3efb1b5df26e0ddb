use fastnbt::json::to_json;
use fastnbt::tag::{Compound, Tag};

fn named(name: &str, values: Vec<(String, Tag)>) -> Compound {
    Compound { name: name.to_string(), values }
}

#[test]
fn list_of_compounds_to_json() {
    let item = |v: i32| Tag::Compound(named("", vec![("k".to_string(), Tag::Int(v))]));
    let root = named("", vec![("xs".to_string(), Tag::List(vec![item(1), item(2)]))]);
    assert_eq!(to_json(&root).unwrap(), r#"{"xs":[{"k":1},{"k":2}]}"#);
}

#[test]
fn json_numbers_strings_and_arrays() {
    let root = named(
        "r",
        vec![
            ("b".to_string(), Tag::Byte(-128)),
            ("l".to_string(), Tag::Long(i64::MIN)),
            ("s".to_string(), Tag::Str("a\"b\\c\n".to_string())),
            ("ba".to_string(), Tag::ByteArray(vec![1, -2])),
            ("ia".to_string(), Tag::IntArray(vec![])),
            ("la".to_string(), Tag::LongArray(vec![10, 200])),
        ],
    );
    assert_eq!(
        to_json(&root).unwrap(),
        r#"{"b":-128,"l":-9223372036854775808,"s":"a\"b\\c\u000a","ba":[1,-2],"ia":[],"la":[10,200]}"#
    );
}

#[test]
fn json_refuses_floats() {
    let root = named("r", vec![("f".to_string(), Tag::Float(0x3f80_0000))]);
    assert!(to_json(&root).is_none());
    assert_eq!(to_json(&named("", vec![])).unwrap(), "{}");
}
