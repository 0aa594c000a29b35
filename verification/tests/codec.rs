use cw_entity::document::{Document, Field};
use cw_entity::error::{ContractError, ErrorKind};
use cw_entity::keys::{be_decode, be_encode, side_of, Side};
use cw_entity::schema::{EntityProperty, EntityPropertyParams, EntitySchema, Rule};
use cw_entity::text::{decimal_text, parse_decimal};

fn prop(value: EntityPropertyParams) -> EntityProperty {
    EntityProperty { indexed: Some(true), required: None, value, name: "p".to_string() }
}

fn text(s: &str) -> Document {
    Document::String(s.to_string())
}

fn key(value: EntityPropertyParams, document: Document) -> Vec<u8> {
    prop(value).to_bytes(&document).unwrap()
}

fn refused(value: EntityPropertyParams, document: Document) -> String {
    let property = prop(value);
    let by_validate = property.validate(&document).unwrap_err();
    let by_encode = property.to_bytes(&document).unwrap_err();
    assert_eq!(by_validate.kind(), ErrorKind::ValidationError);
    assert_eq!(by_encode.kind(), ErrorKind::ValidationError);
    assert_eq!(by_validate.reason(), by_encode.reason());
    by_validate.reason().clone()
}

fn padded(content: &[u8], width: usize) -> Vec<u8> {
    let mut bytes = content.to_vec();
    bytes.resize(width, 0);
    bytes
}

#[test]
fn unsigned_integers_are_big_endian() {
    assert_eq!(key(EntityPropertyParams::U8 {}, Document::Unsigned(7)), vec![7]);
    assert_eq!(key(EntityPropertyParams::U16 {}, Document::Unsigned(258)), vec![1, 2]);
    assert_eq!(key(EntityPropertyParams::U32 {}, Document::Unsigned(10)), vec![0, 0, 0, 10]);
    assert_eq!(
        key(EntityPropertyParams::U32 {}, Document::Signed(0x0102_0304)),
        vec![1, 2, 3, 4]
    );
    assert_eq!(key(EntityPropertyParams::U64 {}, Document::Unsigned(u64::MAX)), vec![255; 8]);
    assert_eq!(
        key(EntityPropertyParams::U64 {}, Document::Unsigned(0x0102_0304_0506_0708)),
        vec![1, 2, 3, 4, 5, 6, 7, 8]
    );
}

#[test]
fn signed_integers_put_negative_numbers_first() {
    assert_eq!(key(EntityPropertyParams::I8 {}, Document::Signed(-128)), vec![0]);
    assert_eq!(key(EntityPropertyParams::I8 {}, Document::Signed(-1)), vec![127]);
    assert_eq!(key(EntityPropertyParams::I8 {}, Document::Unsigned(0)), vec![128]);
    assert_eq!(key(EntityPropertyParams::I8 {}, Document::Signed(127)), vec![255]);
    assert_eq!(key(EntityPropertyParams::I16 {}, Document::Signed(-1)), vec![0x7f, 0xff]);
    assert_eq!(key(EntityPropertyParams::I32 {}, Document::Signed(1)), vec![0x80, 0, 0, 1]);
    assert_eq!(key(EntityPropertyParams::I64 {}, Document::Signed(i64::MIN)), vec![0; 8]);
    assert_eq!(key(EntityPropertyParams::I64 {}, Document::Signed(i64::MAX)), vec![255; 8]);
}

#[test]
fn wide_integers_are_sixteen_bytes() {
    assert_eq!(
        key(EntityPropertyParams::U128 {}, text("340282366920938463463374607431768211455")),
        vec![255; 16]
    );
    assert_eq!(key(EntityPropertyParams::U128 {}, text("0")), vec![0; 16]);
    assert_eq!(key(EntityPropertyParams::U128 {}, text("+256")), {
        let mut bytes = vec![0; 16];
        bytes[14] = 1;
        bytes
    });
    let mut minus_one = vec![255; 16];
    minus_one[0] = 0x7f;
    assert_eq!(key(EntityPropertyParams::I128 {}, text("-1")), minus_one);
    assert_eq!(key(EntityPropertyParams::I128 {}, Document::Signed(-1)), minus_one);
    assert_eq!(
        key(EntityPropertyParams::I128 {}, text("-170141183460469231731687303715884105728")),
        vec![0; 16]
    );
    assert_eq!(
        key(EntityPropertyParams::I128 {}, text("170141183460469231731687303715884105727")),
        vec![255; 16]
    );
    let mut five = vec![0; 16];
    five[0] = 0x80;
    five[15] = 5;
    assert_eq!(key(EntityPropertyParams::I128 {}, text("+5")), five);
    assert_eq!(key(EntityPropertyParams::I128 {}, Document::Unsigned(5)), five);
    assert_eq!(key(EntityPropertyParams::I128 {}, text("-0")), {
        let mut zero = vec![0; 16];
        zero[0] = 0x80;
        zero
    });
}

#[test]
fn booleans_are_one_byte() {
    assert_eq!(key(EntityPropertyParams::Bool {}, Document::Bool(false)), vec![0]);
    assert_eq!(key(EntityPropertyParams::Bool {}, Document::Bool(true)), vec![1]);
}

#[test]
fn strings_are_padded_to_their_capacity() {
    assert_eq!(
        key(EntityPropertyParams::String { max_byte_size: Some(4) }, text("ab")),
        vec![97, 98, 0, 0]
    );
    assert_eq!(
        key(EntityPropertyParams::String { max_byte_size: Some(4) }, text("abcd")),
        vec![97, 98, 99, 100]
    );
    assert_eq!(
        key(EntityPropertyParams::String { max_byte_size: Some(3) }, text("é")),
        vec![0xc3, 0xa9, 0]
    );
    assert_eq!(
        key(EntityPropertyParams::String { max_byte_size: None }, text("ab")),
        padded(b"ab", 1024)
    );
    assert_eq!(key(EntityPropertyParams::String { max_byte_size: Some(0) }, text("")), Vec::<u8>::new());
}

#[test]
fn arrays_and_objects_are_their_compact_text() {
    let array = Document::Array(vec![
        Document::Unsigned(1),
        text("a\"b"),
        Document::Null,
        Document::Bool(true),
        Document::Signed(-2),
        Document::Real(serde_json::Number::from_f64(1.5).unwrap()),
    ]);
    assert_eq!(
        key(EntityPropertyParams::Array { max_byte_size: Some(40) }, array),
        padded(br#"[1,"a\"b",null,true,-2,1.5]"#, 40)
    );
    assert_eq!(
        key(EntityPropertyParams::Array { max_byte_size: None }, Document::Array(vec![])),
        padded(b"[]", 1024)
    );
    let object = Document::Object(vec![
        Field { name: "b".to_string(), value: Document::Unsigned(1) },
        Field {
            name: "a".to_string(),
            value: Document::Object(vec![Field {
                name: "c".to_string(),
                value: Document::Array(vec![Document::Unsigned(2)]),
            }]),
        },
    ]);
    assert_eq!(
        key(EntityPropertyParams::Object { max_byte_size: Some(24) }, object),
        padded(br#"{"a":{"c":[2]},"b":1}"#, 24)
    );
}

#[test]
fn each_rule_is_named_when_broken() {
    let string = EntityPropertyParams::String { max_byte_size: Some(4) };
    let object = EntityPropertyParams::Object { max_byte_size: Some(4) };
    let array = EntityPropertyParams::Array { max_byte_size: Some(4) };
    assert_eq!(refused(string, Document::Unsigned(1)), "p - expected string");
    assert_eq!(refused(object, Document::Array(vec![])), "p - expected object");
    assert_eq!(refused(array, Document::Object(vec![])), "p - expected array");
    assert_eq!(refused(EntityPropertyParams::Bool {}, Document::Null), "p - expected boolean");
    assert_eq!(refused(string, text("abcde")), "p - beyond allowed max byte size");
    assert_eq!(
        refused(array, Document::Array(vec![Document::Unsigned(100)])),
        "p - beyond allowed max byte size"
    );
    assert_eq!(
        refused(
            object,
            Document::Object(vec![Field { name: "k".to_string(), value: Document::Null }])
        ),
        "p - beyond allowed max byte size"
    );
    assert_eq!(refused(EntityPropertyParams::U8 {}, Document::Unsigned(256)), "p - too large");
    assert_eq!(refused(EntityPropertyParams::U8 {}, Document::Signed(-1)), "p - too small");
    assert_eq!(refused(EntityPropertyParams::I8 {}, Document::Signed(-129)), "p - too small");
    assert_eq!(refused(EntityPropertyParams::I8 {}, Document::Unsigned(128)), "p - too large");
    assert_eq!(
        refused(EntityPropertyParams::I64 {}, Document::Unsigned(1 << 63)),
        "p - too large"
    );
    assert_eq!(refused(EntityPropertyParams::U64 {}, Document::Signed(-5)), "p - too small");
    assert_eq!(refused(EntityPropertyParams::U16 {}, text("1")), "p - invalid type");
    assert_eq!(
        refused(
            EntityPropertyParams::U32 {},
            Document::Real(serde_json::Number::from_f64(2.5).unwrap())
        ),
        "p - invalid type"
    );
    assert_eq!(refused(EntityPropertyParams::I128 {}, Document::Bool(true)), "p - invalid type");
    for bad in ["", "12a", "-1", " 1", "+", "1.0", "340282366920938463463374607431768211456"] {
        assert_eq!(refused(EntityPropertyParams::U128 {}, text(bad)), "p - invalid u128");
    }
    assert_eq!(refused(EntityPropertyParams::U128 {}, Document::Unsigned(1)), "p - invalid u128");
    for bad in [
        "",
        "-",
        "--1",
        "1e3",
        "170141183460469231731687303715884105728",
        "-170141183460469231731687303715884105729",
        "999999999999999999999999999999999999999999",
    ] {
        assert_eq!(refused(EntityPropertyParams::I128 {}, text(bad)), "p - invalid i128");
    }
}

#[test]
fn valid_values_pass() {
    let values = vec![
        (EntityPropertyParams::U8 {}, Document::Unsigned(255)),
        (EntityPropertyParams::U16 {}, Document::Unsigned(65535)),
        (EntityPropertyParams::U32 {}, Document::Unsigned(u32::MAX as u64)),
        (EntityPropertyParams::I16 {}, Document::Signed(i16::MIN as i64)),
        (EntityPropertyParams::I32 {}, Document::Signed(i32::MAX as i64)),
        (EntityPropertyParams::I128 {}, Document::Unsigned(u64::MAX)),
        (EntityPropertyParams::Bool {}, Document::Bool(true)),
        (EntityPropertyParams::String { max_byte_size: Some(2) }, text("ab")),
        (EntityPropertyParams::Array { max_byte_size: Some(2) }, Document::Array(vec![])),
        (EntityPropertyParams::Object { max_byte_size: Some(2) }, Document::Object(vec![])),
    ];
    for (params, value) in values {
        let property = prop(params);
        assert!(property.validate(&value).is_ok());
        assert_eq!(property.to_bytes(&value).unwrap().len(), params.key_width());
    }
}

#[test]
fn pad_fills_with_zero_bytes_or_refuses() {
    let property = prop(EntityPropertyParams::Bool {});
    assert_eq!(property.pad(vec![1, 0, 2], 5).unwrap(), vec![1, 0, 2, 0, 0]);
    assert_eq!(property.pad(vec![1, 2], 2).unwrap(), vec![1, 2]);
    assert_eq!(property.pad(vec![], 0).unwrap(), Vec::<u8>::new());
    let error = property.pad(vec![1, 2, 3], 2).unwrap_err();
    assert_eq!(error.kind(), ErrorKind::ValidationError);
    assert_eq!(error.reason(), "p - beyond allowed max byte size");
}

#[test]
fn validation_error_names_the_property() {
    let property = EntityProperty {
        indexed: None,
        required: None,
        value: EntityPropertyParams::Bool {},
        name: "level".to_string(),
    };
    match property.validation_error("out of luck") {
        Err(ContractError::ValidationError { reason }) => assert_eq!(reason, "level - out of luck"),
        other => panic!("{:?}", other),
    }
    assert_eq!(Rule::TooLarge.words(), "too large");
    assert!(!property.has_index());
}

#[test]
fn keys_order_as_numbers_do() {
    let cases: Vec<(EntityPropertyParams, Vec<i128>)> = vec![
        (EntityPropertyParams::U8 {}, vec![0, 1, 2, 127, 128, 255]),
        (EntityPropertyParams::U16 {}, vec![0, 255, 256, 257, 65535]),
        (EntityPropertyParams::U32 {}, vec![0, 255, 256, 65536, 16777216, u32::MAX as i128]),
        (EntityPropertyParams::U64 {}, vec![0, 1, 1 << 32, 1 << 63, u64::MAX as i128]),
        (EntityPropertyParams::I8 {}, vec![-128, -2, -1, 0, 1, 127]),
        (EntityPropertyParams::I16 {}, vec![-32768, -256, -255, -1, 0, 255, 256, 32767]),
        (EntityPropertyParams::I32 {}, vec![i32::MIN as i128, -1, 0, 1, i32::MAX as i128]),
        (EntityPropertyParams::I64 {}, vec![i64::MIN as i128, -1, 0, 1, i64::MAX as i128]),
    ];
    for (params, numbers) in cases {
        let keys: Vec<Vec<u8>> = numbers
            .iter()
            .map(|n| {
                let value = if *n < 0 {
                    Document::Signed(*n as i64)
                } else {
                    Document::Unsigned(*n as u64)
                };
                key(params, value)
            })
            .collect();
        for pair in keys.windows(2) {
            assert!(pair[0] < pair[1], "{:?}", params);
            assert_eq!(side_of(&pair[0], &pair[1]), Side::Before);
            assert_eq!(side_of(&pair[1], &pair[0]), Side::After);
        }
    }
    let wide = ["-170141183460469231731687303715884105728", "-300", "-1", "0", "7", "300"];
    let keys: Vec<Vec<u8>> =
        wide.iter().map(|n| key(EntityPropertyParams::I128 {}, text(n))).collect();
    for pair in keys.windows(2) {
        assert!(pair[0] < pair[1]);
    }
}

#[test]
fn decode_reads_back_what_encode_wrote() {
    let values = vec![
        (EntityPropertyParams::U8 {}, Document::Unsigned(200)),
        (EntityPropertyParams::U16 {}, Document::Unsigned(513)),
        (EntityPropertyParams::U32 {}, Document::Unsigned(70000)),
        (EntityPropertyParams::U64 {}, Document::Unsigned(u64::MAX)),
        (EntityPropertyParams::I8 {}, Document::Signed(-100)),
        (EntityPropertyParams::I16 {}, Document::Signed(-1)),
        (EntityPropertyParams::I32 {}, Document::Signed(i32::MIN as i64)),
        (EntityPropertyParams::I64 {}, Document::Signed(i64::MAX)),
        (EntityPropertyParams::Bool {}, Document::Bool(true)),
        (EntityPropertyParams::Bool {}, Document::Bool(false)),
        (EntityPropertyParams::U128 {}, text("340282366920938463463374607431768211455")),
        (EntityPropertyParams::U128 {}, text("0")),
        (EntityPropertyParams::I128 {}, text("-170141183460469231731687303715884105728")),
        (EntityPropertyParams::I128 {}, text("-42")),
        (EntityPropertyParams::I128 {}, text("42")),
    ];
    for (params, value) in values {
        let property = prop(params);
        let bytes = property.to_bytes(&value).unwrap();
        let back = property.decode(&bytes).unwrap();
        assert_eq!(back, value, "{:?}", params);
        assert_eq!(property.to_bytes(&back).unwrap(), bytes);
    }
    let positive = prop(EntityPropertyParams::I16 {}).decode(&vec![0x80, 5]).unwrap();
    assert_eq!(positive, Document::Signed(5));
}

#[test]
fn decode_refuses_what_is_no_key() {
    let not_decodable = |params: EntityPropertyParams, bytes: Vec<u8>| {
        let error = prop(params).decode(&bytes).unwrap_err();
        assert_eq!(error.kind(), ErrorKind::ValidationError);
        assert_eq!(error.reason(), "p - not decodable");
    };
    not_decodable(EntityPropertyParams::U16 {}, vec![1]);
    not_decodable(EntityPropertyParams::U16 {}, vec![1, 2, 3]);
    not_decodable(EntityPropertyParams::Bool {}, vec![2]);
    not_decodable(EntityPropertyParams::Bool {}, vec![]);
    not_decodable(EntityPropertyParams::I128 {}, vec![0; 15]);
    not_decodable(EntityPropertyParams::String { max_byte_size: Some(2) }, vec![97, 0]);
    not_decodable(EntityPropertyParams::Array { max_byte_size: Some(2) }, vec![91, 93]);
    not_decodable(EntityPropertyParams::Object { max_byte_size: Some(2) }, vec![123, 125]);
}

#[test]
fn big_endian_bytes_round_trip() {
    assert_eq!(be_encode(0x0102, 2), vec![1, 2]);
    assert_eq!(be_encode(0x0102, 1), vec![2]);
    assert_eq!(be_encode(5, 0), Vec::<u8>::new());
    assert_eq!(be_encode(u128::MAX, 16), vec![255; 16]);
    assert_eq!(be_decode(&vec![1, 2]), 0x0102);
    assert_eq!(be_decode(&vec![]), 0);
    assert_eq!(be_decode(&vec![255; 16]), u128::MAX);
}

#[test]
fn keys_compare_byte_by_byte() {
    assert_eq!(side_of(&vec![], &vec![]), Side::Same);
    assert_eq!(side_of(&vec![], &vec![0]), Side::Before);
    assert_eq!(side_of(&vec![1, 2], &vec![1, 2, 0]), Side::Before);
    assert_eq!(side_of(&vec![1, 3], &vec![1, 2, 9]), Side::After);
    assert_eq!(side_of(&vec![200], &vec![100]), Side::After);
    assert_eq!(side_of(&vec![7, 7], &vec![7, 7]), Side::Same);
}

#[test]
fn decimal_text_is_exact() {
    assert_eq!(decimal_text(0), "0");
    assert_eq!(decimal_text(9), "9");
    assert_eq!(decimal_text(10), "10");
    assert_eq!(decimal_text(1234567890123), "1234567890123");
    assert_eq!(decimal_text(u128::MAX), "340282366920938463463374607431768211455");
}

#[test]
fn decimal_text_is_read_back() {
    let read = |s: &str, signed: bool| parse_decimal(s, signed).map(|p| (p.negative, p.magnitude));
    assert_eq!(read("0", false), Some((false, 0)));
    assert_eq!(read("007", false), Some((false, 7)));
    assert_eq!(read("+12", false), Some((false, 12)));
    assert_eq!(read("-12", true), Some((true, 12)));
    assert_eq!(read("-12", false), None);
    assert_eq!(read("", true), None);
    assert_eq!(read("+", true), None);
    assert_eq!(read("1_000", true), None);
    assert_eq!(read("١٢", true), None);
    assert_eq!(
        read("340282366920938463463374607431768211455", false),
        Some((false, u128::MAX))
    );
    assert_eq!(read("340282366920938463463374607431768211456", false), None);
}

#[test]
fn schema_checks_a_whole_document() {
    let schema = EntitySchema {
        name: "s".to_string(),
        properties: vec![
            EntityProperty {
                indexed: None,
                required: Some(true),
                value: EntityPropertyParams::U8 {},
                name: "a".to_string(),
            },
            EntityProperty {
                indexed: Some(true),
                required: Some(false),
                value: EntityPropertyParams::Bool {},
                name: "b".to_string(),
            },
        ],
    };
    let document = |members: Vec<(&str, Document)>| {
        Document::Object(
            members
                .into_iter()
                .map(|(name, value)| Field { name: name.to_string(), value })
                .collect(),
        )
    };
    assert!(schema.has_unique_names());
    assert_eq!(schema.find(&"b".to_string()), Some(1));
    assert_eq!(schema.find(&"c".to_string()), None);
    assert!(schema
        .validate(&document(vec![("a", Document::Unsigned(1)), ("free", Document::Null)]))
        .is_ok());
    assert_eq!(
        schema.validate(&document(vec![("b", Document::Bool(true))])).unwrap_err().reason(),
        "a required"
    );
    assert_eq!(
        schema
            .validate(&document(vec![("b", Document::Null), ("a", text("x"))]))
            .unwrap_err()
            .reason(),
        "a - invalid type"
    );
    assert_eq!(
        schema
            .validate(&document(vec![("a", Document::Unsigned(1)), ("b", Document::Null)]))
            .unwrap_err()
            .reason(),
        "b - expected boolean"
    );
    let no_object = schema.validate(&Document::Array(vec![])).unwrap_err();
    assert_eq!(no_object.kind(), ErrorKind::Unexpected);
    assert_eq!(no_object.reason(), "updated entity is not an object");
    let broken = schema.validate(&document(vec![("b", Document::Bool(true))])).unwrap_err();
    assert_eq!(broken.kind(), ErrorKind::ValidationError);
    assert!(schema.properties[1]
        .validate_in(&document(vec![("a", Document::Unsigned(1))]))
        .is_ok());
    let copy = schema.duplicate();
    assert_eq!(copy.name, "s");
    assert_eq!(copy.properties.len(), 2);
    assert_eq!(copy.properties[1].name, "b");
    let twice = EntitySchema {
        name: "t".to_string(),
        properties: vec![copy.properties[0].duplicate(), copy.properties[0].duplicate()],
    };
    assert!(!twice.has_unique_names());
}
