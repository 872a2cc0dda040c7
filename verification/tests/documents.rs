use acvm::acir::circuit::ExpressionWidth;
use circuit_info::document::Document;
use circuit_info::report::{ContractInfo, FunctionInfo, InfoReport, ProgramInfo};
use serde_json::{Number, Value};

fn to_json(document: &Document) -> Value {
    match document {
        Document::Text(text) => Value::String(text.clone()),
        Document::Number(number) => Value::Number(Number::from(*number)),
        Document::List(items) => Value::Array(items.iter().map(to_json).collect()),
        Document::Record(fields) => {
            let mut map = serde_json::Map::new();
            for (name, value) in fields {
                map.insert(name.clone(), to_json(value));
            }
            Value::Object(map)
        }
    }
}

fn from_json(value: &Value) -> Document {
    match value {
        Value::String(text) => Document::Text(text.clone()),
        Value::Number(number) => Document::Number(number.as_u64().unwrap()),
        Value::Array(items) => Document::List(items.iter().map(from_json).collect()),
        Value::Object(map) => Document::Record(
            map.iter().map(|(name, value)| (name.clone(), from_json(value))).collect(),
        ),
        other => panic!("no document holds {other}"),
    }
}

fn function(name: &str, acir_opcodes: usize, circuit_size: u32) -> FunctionInfo {
    FunctionInfo { name: name.to_string(), acir_opcodes, circuit_size }
}

fn scenario() -> InfoReport {
    InfoReport::new(
        vec![ProgramInfo {
            package_name: "PackageName".to_string(),
            expression_width: ExpressionWidth::Bounded { width: 3 },
            functions: vec![function("FunctionName", 3, 17)],
        }],
        Vec::new(),
    )
}

fn large(width: ExpressionWidth) -> InfoReport {
    InfoReport::new(
        vec![
            ProgramInfo {
                package_name: "wallet".to_string(),
                expression_width: width,
                functions: vec![function("main", 120, 4096), function("helper \"é\"", 0, 0)],
            },
            ProgramInfo {
                package_name: "empty".to_string(),
                expression_width: width,
                functions: Vec::new(),
            },
        ],
        vec![ContractInfo {
            name: "Token".to_string(),
            expression_width: width,
            functions: vec![function("mint", usize::MAX, u32::MAX)],
        }],
    )
}

#[test]
fn the_structured_output_of_one_function() {
    let document = scenario().to_document();
    assert_eq!(
        to_json(&document).to_string(),
        r#"{"programs":[{"package_name":"PackageName","functions":[{"name":"FunctionName","acir_opcodes":3,"circuit_size":17}]}],"contracts":[]}"#
    );
}

#[test]
fn the_structured_output_of_nothing() {
    let document = InfoReport::default().to_document();
    assert_eq!(to_json(&document).to_string(), r#"{"programs":[],"contracts":[]}"#);
}

#[test]
fn contracts_are_named_by_name() {
    let report = InfoReport::new(
        Vec::new(),
        vec![ContractInfo {
            name: "Token".to_string(),
            expression_width: ExpressionWidth::Unbounded,
            functions: vec![function("mint", 6, 60)],
        }],
    );
    assert_eq!(
        to_json(&report.to_document()).to_string(),
        r#"{"programs":[],"contracts":[{"name":"Token","functions":[{"name":"mint","acir_opcodes":6,"circuit_size":60}]}]}"#
    );
}

#[test]
fn a_function_as_a_document() {
    let document = function("f", 3, 17).to_document();
    assert_eq!(to_json(&document).to_string(), r#"{"name":"f","acir_opcodes":3,"circuit_size":17}"#);
    assert_eq!(FunctionInfo::from_document(&document), Some(function("f", 3, 17)));
}

#[test]
fn the_document_leaves_out_the_expression_width() {
    let bounded = large(ExpressionWidth::Bounded { width: 7 }).to_document();
    let unbounded = large(ExpressionWidth::Unbounded).to_document();
    assert_eq!(to_json(&bounded), to_json(&unbounded));
    assert!(!to_json(&bounded).to_string().contains("width"));
}

#[test]
fn a_report_comes_back_from_its_document() {
    for width in [ExpressionWidth::Unbounded, ExpressionWidth::Bounded { width: 3 }] {
        for report in [scenario(), large(width), InfoReport::default()] {
            let document = report.to_document();
            let back = InfoReport::from_document(&document, width).unwrap();
            assert_eq!(back.programs.len(), report.programs.len());
            assert_eq!(back.contracts.len(), report.contracts.len());
            for (held, written) in back.programs.iter().zip(report.programs.iter()) {
                assert_eq!(held.package_name, written.package_name);
                assert_eq!(held.functions, written.functions);
                assert_eq!(held.expression_width, width);
            }
            for (held, written) in back.contracts.iter().zip(report.contracts.iter()) {
                assert_eq!(held.name, written.name);
                assert_eq!(held.functions, written.functions);
                assert_eq!(held.expression_width, width);
            }
        }
    }
    let width = ExpressionWidth::Bounded { width: 9 };
    let report = large(width);
    assert_eq!(InfoReport::from_document(&report.to_document(), width), Some(report));
}

#[test]
fn a_report_comes_back_from_its_text() {
    let width = ExpressionWidth::Bounded { width: 5 };
    let report = large(width);
    let text = to_json(&report.to_document()).to_string();
    let value: Value = serde_json::from_str(&text).unwrap();
    let back = InfoReport::from_document(&from_json(&value), width);
    assert_eq!(back, Some(report));
}

fn record(fields: Vec<(&str, Document)>) -> Document {
    Document::Record(fields.into_iter().map(|(name, value)| (name.to_string(), value)).collect())
}

fn function_record(name: Document, opcodes: Document, size: Document) -> Document {
    record(vec![("name", name), ("acir_opcodes", opcodes), ("circuit_size", size)])
}

#[test]
fn other_documents_hold_no_function() {
    let text = || Document::Text("f".to_string());
    assert!(FunctionInfo::from_document(&function_record(
        text(),
        Document::Number(3),
        Document::Number(17)
    ))
    .is_some());
    // a size that no circuit size can hold
    assert!(FunctionInfo::from_document(&function_record(
        text(),
        Document::Number(3),
        Document::Number(u32::MAX as u64 + 1)
    ))
    .is_none());
    assert!(FunctionInfo::from_document(&function_record(
        text(),
        Document::Number(3),
        Document::Number(u32::MAX as u64)
    ))
    .is_some());
    // the wrong kind of value
    assert!(FunctionInfo::from_document(&function_record(
        Document::Number(1),
        Document::Number(3),
        Document::Number(17)
    ))
    .is_none());
    assert!(FunctionInfo::from_document(&function_record(
        text(),
        Document::Text("3".to_string()),
        Document::Number(17)
    ))
    .is_none());
    assert!(FunctionInfo::from_document(&function_record(text(), Document::Number(3), text()))
        .is_none());
    // fields that are missing, misnamed or out of order
    assert!(FunctionInfo::from_document(&record(vec![
        ("name", text()),
        ("acir_opcodes", Document::Number(3))
    ]))
    .is_none());
    assert!(FunctionInfo::from_document(&record(vec![
        ("name", text()),
        ("opcodes", Document::Number(3)),
        ("circuit_size", Document::Number(17))
    ]))
    .is_none());
    assert!(FunctionInfo::from_document(&record(vec![
        ("acir_opcodes", Document::Number(3)),
        ("name", text()),
        ("circuit_size", Document::Number(17))
    ]))
    .is_none());
    assert!(FunctionInfo::from_document(&Document::List(Vec::new())).is_none());
    assert!(FunctionInfo::from_document(&text()).is_none());
}

#[test]
fn other_documents_hold_no_report() {
    let width = ExpressionWidth::Unbounded;
    let list = || Document::List(Vec::new());
    assert!(InfoReport::from_document(&record(vec![("programs", list()), ("contracts", list())]), width)
        .is_some());
    assert!(InfoReport::from_document(&record(vec![("contracts", list()), ("programs", list())]), width)
        .is_none());
    assert!(InfoReport::from_document(&record(vec![("programs", list())]), width).is_none());
    assert!(InfoReport::from_document(
        &record(vec![("programs", list()), ("contracts", Document::Number(0))]),
        width
    )
    .is_none());
    assert!(InfoReport::from_document(&list(), width).is_none());
    // a program under the field name of a contract
    let program = ProgramInfo {
        package_name: "p".to_string(),
        expression_width: width,
        functions: Vec::new(),
    };
    let misplaced =
        record(vec![("programs", list()), ("contracts", Document::List(vec![program.to_document()]))]);
    assert!(InfoReport::from_document(&misplaced, width).is_none());
    assert!(ContractInfo::from_document(&program.to_document(), width).is_none());
    assert_eq!(ProgramInfo::from_document(&program.to_document(), width), Some(program));
    // one function that is none spoils the whole
    let spoiled = record(vec![
        (
            "programs",
            Document::List(vec![record(vec![
                ("package_name", Document::Text("p".to_string())),
                ("functions", Document::List(vec![function("f", 1, 2).to_document(), list()])),
            ])]),
        ),
        ("contracts", list()),
    ]);
    assert!(InfoReport::from_document(&spoiled, width).is_none());
}

#[test]
fn documents_tell_their_kind() {
    let text = Document::Text("t".to_string());
    let number = Document::Number(4);
    let list = Document::List(vec![Document::Number(1)]);
    let fields = record(vec![("a", Document::Number(1))]);
    assert_eq!(text.as_text().map(|held| held.as_str()), Some("t"));
    assert!(text.as_number().is_none() && text.as_list().is_none() && text.as_record().is_none());
    assert_eq!(number.as_number(), Some(4));
    assert!(number.as_text().is_none());
    assert_eq!(list.as_list().map(|items| items.len()), Some(1));
    assert!(list.as_record().is_none());
    assert_eq!(fields.as_record().map(|held| held[0].0.as_str()), Some("a"));
    assert!(fields.as_list().is_none());
}
