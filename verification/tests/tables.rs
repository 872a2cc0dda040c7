use acvm::acir::circuit::ExpressionWidth;
use circuit_info::render::Rendering;
use circuit_info::report::{ContractInfo, FunctionInfo, InfoReport, ProgramInfo};
use circuit_info::table::{function_row_texts, is_plain};
use prettytable::{Cell, Row, Table};

fn function(name: &str, acir_opcodes: usize, circuit_size: u32) -> FunctionInfo {
    FunctionInfo { name: name.to_string(), acir_opcodes, circuit_size }
}

fn program(name: &str, width: ExpressionWidth, functions: Vec<FunctionInfo>) -> ProgramInfo {
    ProgramInfo { package_name: name.to_string(), expression_width: width, functions }
}

fn contract(name: &str, width: ExpressionWidth, functions: Vec<FunctionInfo>) -> ContractInfo {
    ContractInfo { name: name.to_string(), expression_width: width, functions }
}

fn texts(row: &Row) -> Vec<String> {
    row.iter().map(|cell| cell.get_content()).collect()
}

fn styled(text: &str, style: &str) -> Cell {
    Cell::new(text).style_spec(style)
}

fn scenario() -> InfoReport {
    InfoReport::new(
        vec![program(
            "PackageName",
            ExpressionWidth::Bounded { width: 3 },
            vec![function("FunctionName", 3, 17)],
        )],
        Vec::new(),
    )
}

#[test]
fn a_function_is_one_row() {
    let rows = scenario().programs[0].rows();
    assert_eq!(rows.len(), 1);
    assert_eq!(
        texts(&rows[0]),
        vec!["PackageName", "FunctionName", "Bounded { width: 3 }", "3", "17"]
    );
}

#[test]
fn cells_are_styled() {
    let rows = scenario().programs[0].rows();
    assert_eq!(
        rows[0],
        Row::new(vec![
            styled("PackageName", "Fm"),
            styled("FunctionName", "Fc"),
            Cell::new("Bounded { width: 3 }"),
            styled("3", "Fc"),
            styled("17", "Fc"),
        ])
    );
}

#[test]
fn expression_widths_are_written_out() {
    let unbounded = program("p", ExpressionWidth::Unbounded, vec![function("f", 1, 1)]);
    assert_eq!(texts(&unbounded.rows()[0])[2], "Unbounded");
    let wide = program("p", ExpressionWidth::Bounded { width: 4096 }, vec![function("f", 1, 1)]);
    assert_eq!(texts(&wide.rows()[0])[2], "Bounded { width: 4096 }");
    let none = contract("c", ExpressionWidth::Bounded { width: 0 }, vec![function("f", 1, 1)]);
    assert_eq!(texts(&none.rows()[0])[2], "Bounded { width: 0 }");
}

#[test]
fn the_program_table_starts_with_its_titles() {
    let table = scenario().program_table().unwrap();
    assert_eq!(table.len(), 2);
    assert_eq!(
        texts(table.get_row(0).unwrap()),
        vec!["Package", "Function", "Expression Width", "ACIR Opcodes", "Backend Circuit Size"]
    );
    assert_eq!(
        texts(table.get_row(1).unwrap()),
        vec!["PackageName", "FunctionName", "Bounded { width: 3 }", "3", "17"]
    );
    let expected = Table::init(vec![
        Row::new(vec![
            styled("Package", "Fm"),
            styled("Function", "Fm"),
            styled("Expression Width", "Fm"),
            styled("ACIR Opcodes", "Fm"),
            styled("Backend Circuit Size", "Fm"),
        ]),
        Row::new(vec![
            styled("PackageName", "Fm"),
            styled("FunctionName", "Fc"),
            Cell::new("Bounded { width: 3 }"),
            styled("3", "Fc"),
            styled("17", "Fc"),
        ]),
    ]);
    assert_eq!(table, expected);
}

#[test]
fn the_program_table_as_text() {
    let table = scenario().program_table().unwrap();
    let lines: Vec<String> = table.to_string().lines().map(|line| line.to_string()).collect();
    assert_eq!(
        lines,
        vec![
            "+-------------+--------------+----------------------+--------------+----------------------+",
            "| Package     | Function     | Expression Width     | ACIR Opcodes | Backend Circuit Size |",
            "+-------------+--------------+----------------------+--------------+----------------------+",
            "| PackageName | FunctionName | Bounded { width: 3 } | 3            | 17                   |",
            "+-------------+--------------+----------------------+--------------+----------------------+",
        ]
    );
}

#[test]
fn the_contract_table_names_contracts() {
    let report = InfoReport::new(
        Vec::new(),
        vec![contract(
            "Token",
            ExpressionWidth::Unbounded,
            vec![function("mint", 6, 60), function("burn", 2, 20)],
        )],
    );
    let table = report.contract_table().unwrap();
    assert_eq!(table.len(), 3);
    assert_eq!(
        texts(table.get_row(0).unwrap()),
        vec!["Contract", "Function", "Expression Width", "ACIR Opcodes", "Backend Circuit Size"]
    );
    assert_eq!(texts(table.get_row(1).unwrap()), vec!["Token", "mint", "Unbounded", "6", "60"]);
    assert_eq!(texts(table.get_row(2).unwrap()), vec!["Token", "burn", "Unbounded", "2", "20"]);
    assert!(report.program_table().is_none());
}

#[test]
fn rows_are_grouped_in_the_order_of_the_report() {
    let report = InfoReport::new(
        vec![
            program("second", ExpressionWidth::Unbounded, vec![function("b", 2, 20), function("a", 1, 10)]),
            program("empty", ExpressionWidth::Unbounded, Vec::new()),
            program("first", ExpressionWidth::Unbounded, vec![function("c", 3, 30)]),
        ],
        Vec::new(),
    );
    let table = report.program_table().unwrap();
    let rows: Vec<Vec<String>> = table.row_iter().skip(1).map(texts).collect();
    assert_eq!(
        rows,
        vec![
            vec!["second", "b", "Unbounded", "2", "20"],
            vec!["second", "a", "Unbounded", "1", "10"],
            vec!["first", "c", "Unbounded", "3", "30"],
        ]
    );
}

#[test]
fn a_table_without_functions_is_left_out() {
    let nothing = InfoReport::default();
    assert!(nothing.program_table().is_none());
    assert!(nothing.contract_table().is_none());
    let hollow = InfoReport::new(
        vec![
            program("a", ExpressionWidth::Unbounded, Vec::new()),
            program("b", ExpressionWidth::Unbounded, Vec::new()),
        ],
        vec![contract("c", ExpressionWidth::Unbounded, Vec::new())],
    );
    assert!(hollow.program_table().is_none());
    assert!(hollow.contract_table().is_none());
    assert!(scenario().contract_table().is_none());
    assert!(scenario().program_table().is_some());
}

#[test]
fn large_counts_are_written_in_full() {
    let big = program(
        "p",
        ExpressionWidth::Unbounded,
        vec![function("f", usize::MAX, u32::MAX)],
    );
    let row = texts(&big.rows()[0]);
    assert_eq!(row[3], usize::MAX.to_string());
    assert_eq!(row[4], "4294967295");
}

#[test]
fn rendering_follows_the_flag() {
    let report = scenario();
    match report.render(false) {
        Some(Rendering::Tabular { programs, contracts }) => {
            assert_eq!(programs, report.program_table());
            assert!(programs.is_some());
            assert!(contracts.is_none());
        }
        other => panic!("tables were asked for, not {other:?}"),
    }
    match report.render(true) {
        Some(Rendering::Structured(document)) => {
            assert!(InfoReport::from_document(&document, ExpressionWidth::Unbounded).is_some());
        }
        other => panic!("a document was asked for, not {other:?}"),
    }
}

#[test]
fn escape_characters_cannot_be_tabled() {
    assert!(scenario().is_printable());
    assert!(InfoReport::default().is_printable());
    let in_function = InfoReport::new(
        vec![program("p", ExpressionWidth::Unbounded, vec![function("f\u{1b}[31m", 1, 1)])],
        Vec::new(),
    );
    assert!(!in_function.programs[0].is_printable());
    assert!(!in_function.is_printable());
    assert!(in_function.render(false).is_none());
    assert!(matches!(in_function.render(true), Some(Rendering::Structured(_))));
    let in_package = InfoReport::new(
        vec![program("\u{1b}", ExpressionWidth::Unbounded, Vec::new())],
        Vec::new(),
    );
    assert!(!in_package.is_printable());
    let in_contract = InfoReport::new(
        vec![program("p", ExpressionWidth::Unbounded, vec![function("f", 1, 1)])],
        vec![contract("c", ExpressionWidth::Unbounded, vec![function("g", 1, 1), function("\u{1b}", 1, 1)])],
    );
    assert!(in_contract.programs[0].is_printable());
    assert!(!in_contract.contracts[0].is_printable());
    assert!(!in_contract.is_printable());
    assert!(in_contract.render(false).is_none());
}

#[test]
fn other_control_characters_can_be_tabled() {
    let report = InfoReport::new(
        vec![program("tab\there", ExpressionWidth::Unbounded, vec![function("é😀\u{7f}", 1, 1)])],
        Vec::new(),
    );
    assert!(report.is_printable());
    let table = report.program_table().unwrap();
    assert_eq!(texts(table.get_row(1).unwrap())[1], "é😀\u{7f}");
}

#[test]
fn the_texts_of_a_row() {
    let texts = function_row_texts("PackageName", "Unbounded", &function("FunctionName", 3, 17));
    assert_eq!(texts, vec!["PackageName", "FunctionName", "Unbounded", "3", "17"]);
    let texts = function_row_texts("", "", &function("", 0, 0));
    assert_eq!(texts, vec!["", "", "", "0", "0"]);
}

#[test]
fn plain_texts_hold_no_escape_character() {
    assert!(is_plain(""));
    assert!(is_plain("FunctionName"));
    assert!(is_plain("Bounded { width: 3 }"));
    assert!(is_plain("日本語 😀 \t\r"));
    assert!(!is_plain("\u{1b}"));
    assert!(!is_plain("red \u{1b}[31m text"));
    assert!(!is_plain("at the end\u{1b}"));
}
