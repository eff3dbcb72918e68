use rddl::data_file;
use rddl::data_item;
use rddl::primitive_item;
use rddl::DataItem;
use rddl::PrimitiveMatrix;
use rddl::PrimitiveValue;
use rddl::PrimitiveVector;
use rddl::Ref;
use rddl::Scope;

fn item(text: &[u8]) -> DataItem {
    let (_, item) = data_item(text, 0).expect("expected a data item");
    item
}

fn scalar(text: &[u8]) -> PrimitiveValue {
    match item(text) {
        DataItem::Primitive { name: None, value } => value,
        other => panic!("expected an anonymous primitive, got {:?}", other),
    }
}

#[test]
fn parser_works() {
    let input: &[u8] = b"u32 $num {
\t\t\t1094861636,
\t\t\t0x41424344,
\t\t\t0o10120441504,
\t\t\t0b0100_0001_0100_0010_0100_0011_0100_0100,
\t\t\t23_889
\t\t}";
    let (_, parsed) = primitive_item(input, 0).unwrap();
    assert_eq!(
        parsed,
        DataItem::Vector {
            name: Some((Scope::Global, "num".to_string())),
            vector: PrimitiveVector::U32(vec![
                1094861636,
                0x41424344,
                0o10120441504,
                0b0100_0001_0100_0010_0100_0011_0100_0100,
                23_889,
            ])
        }
    );
}

#[test]
fn scalar_bool() {
    assert_eq!(scalar(b"bool true"), PrimitiveValue::Bool(true));
    assert_eq!(scalar(b"bool false"), PrimitiveValue::Bool(false));
}

#[test]
fn scalar_unsigned_widths() {
    assert_eq!(scalar(b"u8 255"), PrimitiveValue::U8(255));
    assert_eq!(scalar(b"u16 65_535"), PrimitiveValue::U16(65535));
    assert_eq!(scalar(b"u32 0x41424344"), PrimitiveValue::U32(0x41424344));
    assert_eq!(
        scalar(b"u64 18446744073709551615"),
        PrimitiveValue::U64(u64::MAX)
    );
}

#[test]
fn scalar_signed_widths() {
    assert_eq!(scalar(b"i8 -127"), PrimitiveValue::I8(-127));
    assert_eq!(scalar(b"i16 0o777"), PrimitiveValue::I16(0o777));
    assert_eq!(scalar(b"i32 -5"), PrimitiveValue::I32(-5));
    assert_eq!(scalar(b"i64 -1_000_000"), PrimitiveValue::I64(-1_000_000));
}

#[test]
fn scalar_floats_keep_their_text() {
    assert_eq!(scalar(b"f32 1.5"), PrimitiveValue::F32("1.5".to_string()));
    assert_eq!(scalar(b"f64 -2e3"), PrimitiveValue::F64("-2e3".to_string()));
    assert_eq!(
        scalar(b"f64 0.25E-2"),
        PrimitiveValue::F64("0.25E-2".to_string())
    );
}

#[test]
fn scalar_string() {
    assert_eq!(
        scalar(b"str \"Charles\""),
        PrimitiveValue::Str("Charles".to_string())
    );
    assert_eq!(scalar(b"str \"\""), PrimitiveValue::Str(String::new()));
}

#[test]
fn scalar_reference() {
    // A name right after the keyword names the item itself, so the
    // reference value follows it.
    assert_eq!(
        item(b"ref $who $alice%name%first"),
        DataItem::Primitive {
            name: Some((Scope::Global, "who".to_string())),
            value: PrimitiveValue::Ref(Ref {
                name: (Scope::Global, "alice".to_string()),
                path: vec!["name".to_string(), "first".to_string()],
            }),
        }
    );
}

#[test]
fn scalar_type_keyword() {
    assert_eq!(scalar(b"type u32"), PrimitiveValue::Type("u32".to_string()));
    assert_eq!(
        scalar(b"type bool"),
        PrimitiveValue::Type("bool".to_string())
    );
}

#[test]
fn string_escapes() {
    assert_eq!(
        scalar(b"str \"a\\n\\t\\\"b\\\\\\0\""),
        PrimitiveValue::Str("a\n\t\"b\\\0".to_string())
    );
}

#[test]
fn string_hex_and_unicode_escapes() {
    assert_eq!(
        scalar(b"str \"\\x41\\u{1F600}\""),
        PrimitiveValue::Str("A\u{1F600}".to_string())
    );
    // Mixing plain text and escape runs concatenates the segments.
    assert_eq!(
        scalar(b"str \"ab\\x41cd\""),
        PrimitiveValue::Str("abAcd".to_string())
    );
    // A surrogate code point falls back to the replacement character.
    assert_eq!(
        scalar(b"str \"\\u{D800}\""),
        PrimitiveValue::Str("\u{FFFD}".to_string())
    );
}

#[test]
fn string_multibyte_utf8_passes_through() {
    assert_eq!(
        scalar("str \"h\u{e9}llo\"".as_bytes()),
        PrimitiveValue::Str("h\u{e9}llo".to_string())
    );
}

#[test]
fn vector_empty_and_order() {
    assert_eq!(
        item(b"u8 {}"),
        DataItem::Vector {
            name: None,
            vector: PrimitiveVector::U8(vec![])
        }
    );
    assert_eq!(
        item(b"bool { true, false, true }"),
        DataItem::Vector {
            name: None,
            vector: PrimitiveVector::Bool(vec![true, false, true])
        }
    );
    assert_eq!(
        item(b"str {\"a\", \"b\"}"),
        DataItem::Vector {
            name: None,
            vector: PrimitiveVector::Str(vec!["a".to_string(), "b".to_string()])
        }
    );
}

#[test]
fn vector_of_references() {
    assert_eq!(
        item(b"ref {$alice, $bob}"),
        DataItem::Vector {
            name: None,
            vector: PrimitiveVector::Ref(vec![
                Ref {
                    name: (Scope::Global, "alice".to_string()),
                    path: vec![],
                },
                Ref {
                    name: (Scope::Global, "bob".to_string()),
                    path: vec![],
                },
            ])
        }
    );
}

#[test]
fn matrix_rows_in_order() {
    assert_eq!(
        item(b"u8 {{1, 2},{3}}"),
        DataItem::Matrix {
            name: None,
            matrix: PrimitiveMatrix::U8(vec![vec![1, 2], vec![3]])
        }
    );
}

#[test]
fn matrix_of_float_text() {
    let text: &[u8] = b"f32 $m {{1.0, 2.0},{-0.5, 4e2}}";
    assert_eq!(
        item(text),
        DataItem::Matrix {
            name: Some((Scope::Global, "m".to_string())),
            matrix: PrimitiveMatrix::F32(vec![
                vec!["1.0".to_string(), "2.0".to_string()],
                vec!["-0.5".to_string(), "4e2".to_string()],
            ])
        }
    );
}

#[test]
fn custom_item_with_properties() {
    let text: &[u8] =
        b"Cfg (a = true, b = 42, c = -1, d = 1.5, e = \"x\", f = $r, g = u8) {}";
    assert_eq!(
        item(text),
        DataItem::Custom {
            name: None,
            structure: "Cfg".to_string(),
            properties: vec![
                ("a".to_string(), PrimitiveValue::Bool(true)),
                ("b".to_string(), PrimitiveValue::U64(42)),
                ("c".to_string(), PrimitiveValue::I64(-1)),
                ("d".to_string(), PrimitiveValue::F64("1.5".to_string())),
                ("e".to_string(), PrimitiveValue::Str("x".to_string())),
                (
                    "f".to_string(),
                    PrimitiveValue::Ref(Ref {
                        name: (Scope::Global, "r".to_string()),
                        path: vec![],
                    })
                ),
                ("g".to_string(), PrimitiveValue::Type("u8".to_string())),
            ],
            items: vec![],
        }
    );
}

#[test]
fn property_number_precedence() {
    // A literal with a fraction or exponent is a float even though its
    // digits alone would parse as an integer; a bare non-negative
    // integer is unsigned; a bare integer too large for any integer
    // width falls through to the float alternative as text.
    let text: &[u8] = b"Cfg (a = 1.5, b = 2, c = 2e1, d = 99999999999999999999) {}";
    match item(text) {
        DataItem::Custom { properties, .. } => {
            assert_eq!(
                properties,
                vec![
                    ("a".to_string(), PrimitiveValue::F64("1.5".to_string())),
                    ("b".to_string(), PrimitiveValue::U64(2)),
                    ("c".to_string(), PrimitiveValue::F64("2e1".to_string())),
                    (
                        "d".to_string(),
                        PrimitiveValue::F64("99999999999999999999".to_string())
                    ),
                ]
            );
        }
        other => panic!("expected a custom item, got {:?}", other),
    }
}

#[test]
fn duplicate_property_keys_last_wins() {
    let text: &[u8] = b"Cfg (a = 1, b = 2, a = 3) {}";
    match item(text) {
        DataItem::Custom { properties, .. } => {
            assert_eq!(properties.len(), 2);
            assert_eq!(
                properties,
                vec![
                    ("a".to_string(), PrimitiveValue::U64(3)),
                    ("b".to_string(), PrimitiveValue::U64(2)),
                ]
            );
        }
        other => panic!("expected a custom item, got {:?}", other),
    }
}

#[test]
fn nested_customs_and_empty_body() {
    let text: &[u8] = b"A { B { C { D {} } } }";
    let mut current = item(text);
    for expected in ["A", "B", "C", "D"] {
        match current {
            DataItem::Custom {
                structure, mut items, ..
            } => {
                assert_eq!(structure, expected);
                if expected == "D" {
                    assert!(items.is_empty());
                    return;
                }
                assert_eq!(items.len(), 1);
                current = items.remove(0);
            }
            other => panic!("expected a custom item, got {:?}", other),
        }
    }
}

#[test]
fn set_name_replaces_only_the_name() {
    let mut it = item(b"u8 $old 7");
    it.set_name(Some((Scope::Local, "fresh".to_string())));
    assert_eq!(
        it,
        DataItem::Primitive {
            name: Some((Scope::Local, "fresh".to_string())),
            value: PrimitiveValue::U8(7),
        }
    );
    it.set_name(None);
    assert_eq!(
        it,
        DataItem::Primitive {
            name: None,
            value: PrimitiveValue::U8(7),
        }
    );
}

#[test]
fn data_item_reports_consumed_length() {
    let text: &[u8] = b"bool true  bool false";
    let (p, first) = data_item(text, 0).unwrap();
    assert_eq!(
        first,
        DataItem::Primitive {
            name: None,
            value: PrimitiveValue::Bool(true),
        }
    );
    let (end, second) = data_item(text, p).unwrap();
    assert_eq!(end, text.len());
    assert_eq!(
        second,
        DataItem::Primitive {
            name: None,
            value: PrimitiveValue::Bool(false),
        }
    );
}

#[test]
fn malformed_inputs_fail() {
    assert!(data_file(b"str \"abc").is_err(), "unterminated string");
    assert!(data_file(b"Person {").is_err(), "unmatched brace");
    assert!(data_file(b"q32 5").is_err(), "unknown type keyword");
    assert!(data_file(b"u8 256").is_err(), "digit overflow");
    assert!(data_file(b"i8 -128").is_err(), "magnitude overflow");
    assert!(data_file(b"").is_err(), "empty input");
    assert!(data_file(b"bool true q32 5").is_err(), "trailing input");
    assert!(data_file(b"u8 {1, x}").is_err(), "list element that is no literal");
    assert!(data_file(b"u8 {1 2}").is_err(), "missing list comma");
    assert!(
        data_file(b"str \"ab\xff\xfecd\"").is_err(),
        "string bytes that are not UTF-8"
    );
}

#[test]
fn people_document() {
    let text: &[u8] = b"
\tPerson $chuck
\t{
\t\tName {str \"Charles\"}
\t\tFriends
\t\t{
\t\t\tref {$alice, $bob}
\t\t}
\t}
\tPerson $alice { Name {str \"Alice\"} }
\tPerson $bob { Name {str \"Bob\"} }
\t";
    let items = data_file(text).unwrap();
    assert_eq!(items.len(), 3);
    let name_item = |who: &str| DataItem::Custom {
        name: None,
        structure: "Name".to_string(),
        properties: vec![],
        items: vec![DataItem::Primitive {
            name: None,
            value: PrimitiveValue::Str(who.to_string()),
        }],
    };
    assert_eq!(
        items[0],
        DataItem::Custom {
            name: Some((Scope::Global, "chuck".to_string())),
            structure: "Person".to_string(),
            properties: vec![],
            items: vec![
                name_item("Charles"),
                DataItem::Custom {
                    name: None,
                    structure: "Friends".to_string(),
                    properties: vec![],
                    items: vec![DataItem::Vector {
                        name: None,
                        vector: PrimitiveVector::Ref(vec![
                            Ref {
                                name: (Scope::Global, "alice".to_string()),
                                path: vec![],
                            },
                            Ref {
                                name: (Scope::Global, "bob".to_string()),
                                path: vec![],
                            },
                        ]),
                    }],
                },
            ],
        }
    );
    assert_eq!(
        items[1],
        DataItem::Custom {
            name: Some((Scope::Global, "alice".to_string())),
            structure: "Person".to_string(),
            properties: vec![],
            items: vec![name_item("Alice")],
        }
    );
    assert_eq!(
        items[2],
        DataItem::Custom {
            name: Some((Scope::Global, "bob".to_string())),
            structure: "Person".to_string(),
            properties: vec![],
            items: vec![name_item("Bob")],
        }
    );
}

#[test]
fn bare_scalar_in_custom_body_is_primitive() {
    // A bare literal inside a custom body is a primitive scalar, not a
    // one-element vector.
    match item(b"Name {str \"x\"}") {
        DataItem::Custom { items, .. } => {
            assert_eq!(
                items,
                vec![DataItem::Primitive {
                    name: None,
                    value: PrimitiveValue::Str("x".to_string()),
                }]
            );
        }
        other => panic!("expected a custom item, got {:?}", other),
    }
}
