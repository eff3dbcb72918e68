//! Re-serializing a parsed tree through a canonical printer and parsing
//! it again yields a structurally equal tree.

use rddl::data_file;
use rddl::DataItem;
use rddl::PrimitiveMatrix;
use rddl::PrimitiveValue;
use rddl::PrimitiveVector;
use rddl::Ref;
use rddl::Scope;

fn print_string(s: &str) -> String {
    let mut out = String::from("\"");
    for c in s.chars() {
        match c {
            '\\' => out.push_str("\\\\"),
            '"' => out.push_str("\\\""),
            '\n' => out.push_str("\\n"),
            '\r' => out.push_str("\\r"),
            '\t' => out.push_str("\\t"),
            '\0' => out.push_str("\\0"),
            other => out.push(other),
        }
    }
    out.push('"');
    out
}

fn print_ref(r: &Ref) -> String {
    let sigil = match r.name.0 {
        Scope::Global => '$',
        Scope::Local => '%',
    };
    let mut out = format!("{}{}", sigil, r.name.1);
    for seg in &r.path {
        out.push('%');
        out.push_str(seg);
    }
    out
}

fn print_scalar(v: &PrimitiveValue) -> String {
    match v {
        PrimitiveValue::Bool(b) => b.to_string(),
        PrimitiveValue::I8(x) => x.to_string(),
        PrimitiveValue::I16(x) => x.to_string(),
        PrimitiveValue::I32(x) => x.to_string(),
        PrimitiveValue::I64(x) => x.to_string(),
        PrimitiveValue::U8(x) => x.to_string(),
        PrimitiveValue::U16(x) => x.to_string(),
        PrimitiveValue::U32(x) => x.to_string(),
        PrimitiveValue::U64(x) => x.to_string(),
        PrimitiveValue::F32(t) => t.clone(),
        PrimitiveValue::F64(t) => t.clone(),
        PrimitiveValue::Str(s) => print_string(s),
        PrimitiveValue::Ref(r) => print_ref(r),
        PrimitiveValue::Type(t) => t.clone(),
    }
}

fn value_keyword(v: &PrimitiveValue) -> &'static str {
    match v {
        PrimitiveValue::Bool(_) => "bool",
        PrimitiveValue::I8(_) => "i8",
        PrimitiveValue::I16(_) => "i16",
        PrimitiveValue::I32(_) => "i32",
        PrimitiveValue::I64(_) => "i64",
        PrimitiveValue::U8(_) => "u8",
        PrimitiveValue::U16(_) => "u16",
        PrimitiveValue::U32(_) => "u32",
        PrimitiveValue::U64(_) => "u64",
        PrimitiveValue::F32(_) => "f32",
        PrimitiveValue::F64(_) => "f64",
        PrimitiveValue::Str(_) => "str",
        PrimitiveValue::Ref(_) => "ref",
        PrimitiveValue::Type(_) => "type",
    }
}

fn vector_parts(v: &PrimitiveVector) -> (&'static str, Vec<String>) {
    match v {
        PrimitiveVector::Bool(xs) => ("bool", xs.iter().map(|x| x.to_string()).collect()),
        PrimitiveVector::I8(xs) => ("i8", xs.iter().map(|x| x.to_string()).collect()),
        PrimitiveVector::I16(xs) => ("i16", xs.iter().map(|x| x.to_string()).collect()),
        PrimitiveVector::I32(xs) => ("i32", xs.iter().map(|x| x.to_string()).collect()),
        PrimitiveVector::I64(xs) => ("i64", xs.iter().map(|x| x.to_string()).collect()),
        PrimitiveVector::U8(xs) => ("u8", xs.iter().map(|x| x.to_string()).collect()),
        PrimitiveVector::U16(xs) => ("u16", xs.iter().map(|x| x.to_string()).collect()),
        PrimitiveVector::U32(xs) => ("u32", xs.iter().map(|x| x.to_string()).collect()),
        PrimitiveVector::U64(xs) => ("u64", xs.iter().map(|x| x.to_string()).collect()),
        PrimitiveVector::F32(xs) => ("f32", xs.clone()),
        PrimitiveVector::F64(xs) => ("f64", xs.clone()),
        PrimitiveVector::Str(xs) => ("str", xs.iter().map(|x| print_string(x)).collect()),
        PrimitiveVector::Ref(xs) => ("ref", xs.iter().map(print_ref).collect()),
        PrimitiveVector::Type(xs) => ("type", xs.clone()),
    }
}

fn matrix_parts(m: &PrimitiveMatrix) -> (&'static str, Vec<Vec<String>>) {
    let per_row = |rows: &Vec<Vec<String>>| rows.clone();
    match m {
        PrimitiveMatrix::Bool(rs) => (
            "bool",
            rs.iter().map(|r| r.iter().map(|x| x.to_string()).collect()).collect(),
        ),
        PrimitiveMatrix::I8(rs) => (
            "i8",
            rs.iter().map(|r| r.iter().map(|x| x.to_string()).collect()).collect(),
        ),
        PrimitiveMatrix::I16(rs) => (
            "i16",
            rs.iter().map(|r| r.iter().map(|x| x.to_string()).collect()).collect(),
        ),
        PrimitiveMatrix::I32(rs) => (
            "i32",
            rs.iter().map(|r| r.iter().map(|x| x.to_string()).collect()).collect(),
        ),
        PrimitiveMatrix::I64(rs) => (
            "i64",
            rs.iter().map(|r| r.iter().map(|x| x.to_string()).collect()).collect(),
        ),
        PrimitiveMatrix::U8(rs) => (
            "u8",
            rs.iter().map(|r| r.iter().map(|x| x.to_string()).collect()).collect(),
        ),
        PrimitiveMatrix::U16(rs) => (
            "u16",
            rs.iter().map(|r| r.iter().map(|x| x.to_string()).collect()).collect(),
        ),
        PrimitiveMatrix::U32(rs) => (
            "u32",
            rs.iter().map(|r| r.iter().map(|x| x.to_string()).collect()).collect(),
        ),
        PrimitiveMatrix::U64(rs) => (
            "u64",
            rs.iter().map(|r| r.iter().map(|x| x.to_string()).collect()).collect(),
        ),
        PrimitiveMatrix::F32(rs) => ("f32", per_row(rs)),
        PrimitiveMatrix::F64(rs) => ("f64", per_row(rs)),
        PrimitiveMatrix::Str(rs) => (
            "str",
            rs.iter().map(|r| r.iter().map(|x| print_string(x)).collect()).collect(),
        ),
        PrimitiveMatrix::Ref(rs) => (
            "ref",
            rs.iter().map(|r| r.iter().map(print_ref).collect()).collect(),
        ),
        PrimitiveMatrix::Type(rs) => ("type", per_row(rs)),
    }
}

fn print_name(name: &Option<(Scope, String)>) -> String {
    match name {
        None => String::new(),
        Some((Scope::Global, id)) => format!("${} ", id),
        Some((Scope::Local, id)) => format!("%{} ", id),
    }
}

fn print_item(item: &DataItem) -> String {
    match item {
        DataItem::Primitive { name, value } => {
            format!("{} {}{}", value_keyword(value), print_name(name), print_scalar(value))
        }
        DataItem::Vector { name, vector } => {
            let (kw, elems) = vector_parts(vector);
            format!("{} {}{{{}}}", kw, print_name(name), elems.join(", "))
        }
        DataItem::Matrix { name, matrix } => {
            let (kw, rows) = matrix_parts(matrix);
            let body: Vec<String> =
                rows.iter().map(|r| format!("{{{}}}", r.join(", "))).collect();
            format!("{} {}{{{}}}", kw, print_name(name), body.join(","))
        }
        DataItem::Custom { name, structure, properties, items } => {
            let props = if properties.is_empty() {
                String::new()
            } else {
                let inner: Vec<String> = properties
                    .iter()
                    .map(|(k, v)| format!("{} = {}", k, print_scalar(v)))
                    .collect();
                format!("({}) ", inner.join(", "))
            };
            let body: Vec<String> = items.iter().map(print_item).collect();
            format!(
                "{} {}{}{{ {} }}",
                structure,
                print_name(name),
                props,
                body.join(" ")
            )
        }
    }
}

fn print_document(items: &[DataItem]) -> String {
    items.iter().map(print_item).collect::<Vec<_>>().join("\n")
}

fn assert_round_trip(text: &[u8]) {
    let parsed = data_file(text).expect("the document should parse");
    let printed = print_document(&parsed);
    let reparsed = data_file(printed.as_bytes())
        .unwrap_or_else(|e| panic!("reparse failed at {}: {:?}\n{}", e.position, e, printed));
    assert_eq!(parsed, reparsed, "printer output: {}", printed);
}

#[test]
fn round_trip_people() {
    assert_round_trip(
        b"Person $chuck { Name {str \"Charles\"} Friends { ref {$alice, $bob} } }
          Person $alice { Name {str \"Alice\"} }
          Person $bob { Name {str \"Bob\"} }",
    );
}

#[test]
fn round_trip_vertex_matrix() {
    assert_round_trip(
        b"VertexArray { f32 { {1.0, 2.0, 3.0}, {0.5, 0.0, 0.5}, {0.0, -1.0, 4.0} } }",
    );
}

#[test]
fn round_trip_scalars_and_vectors() {
    assert_round_trip(
        b"u32 $num { 1094861636, 0x41424344, 23_889 }
          bool true
          i8 %x -42
          str \"a\\n\\\"b\\\\\"
          type u16
          ref $a%b%c",
    );
}

#[test]
fn round_trip_properties() {
    assert_round_trip(
        b"Cfg (a = true, b = 42, c = -1, d = 1.5, e = \"x\", f = $r%p, g = u8) { u8 {1, 2} }",
    );
}
