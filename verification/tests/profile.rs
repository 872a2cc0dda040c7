use circuit_info::profile::{
    comes_before, profile_line, sort_by_count, span_opcodes_lines, DebugInfo, ProfileLine,
    SpanOpcodes,
};
use circuit_info::source::{CharRange, DebugArtifact, DebugFile, OpcodeCount, SourceLocation};
use std::collections::BTreeMap;

const SOURCE: &str = "fn main() {\n    let x = 1;\n    assert(x == 1);\n}\n";

fn artifact() -> DebugArtifact {
    let mut file_map = BTreeMap::new();
    file_map.insert(
        4,
        DebugFile { source: SOURCE.to_string(), path: "src/main.nr".to_string() },
    );
    file_map.insert(
        9,
        DebugFile { source: "// café\nlet é = 2;\n".to_string(), path: "src/lib.nr".to_string() },
    );
    DebugArtifact { file_map }
}

fn entry(file: usize, start: u32, end: u32, acir: usize, unconstrained: usize) -> SpanOpcodes {
    SpanOpcodes {
        location: SourceLocation { file, span: CharRange::new(start, end).unwrap() },
        count: OpcodeCount { acir_size: acir, unconstrained_size: unconstrained },
    }
}

#[test]
fn lower_counts_are_listed_first() {
    let second = entry(4, 16, 26, 2, 1);
    let first = entry(4, 31, 45, 1, 5);
    let sorted = sort_by_count(&vec![second, first]);
    assert_eq!(sorted, vec![first, second]);
    let sorted = sort_by_count(&vec![first, second]);
    assert_eq!(sorted, vec![first, second]);
}

#[test]
fn unconstrained_counts_break_ties() {
    let a = entry(4, 0, 1, 3, 9);
    let b = entry(4, 1, 2, 3, 0);
    let c = entry(4, 2, 3, 3, 4);
    assert_eq!(sort_by_count(&vec![a, b, c]), vec![b, c, a]);
}

#[test]
fn equal_counts_keep_their_order() {
    let a = entry(4, 0, 1, 2, 2);
    let b = entry(4, 1, 2, 1, 1);
    let c = entry(4, 2, 3, 2, 2);
    let d = entry(4, 3, 4, 1, 1);
    let e = entry(4, 4, 5, 2, 2);
    assert_eq!(sort_by_count(&vec![a, b, c, d, e]), vec![b, d, a, c, e]);
    assert_eq!(sort_by_count(&vec![e, d, c, b, a]), vec![d, b, e, c, a]);
}

#[test]
fn sorting_keeps_every_entry() {
    let entries: Vec<SpanOpcodes> =
        (0..40u32).map(|i| entry(4, i, i + 1, ((i * 7) % 5) as usize, ((i * 3) % 4) as usize)).collect();
    let sorted = sort_by_count(&entries);
    assert_eq!(sorted.len(), entries.len());
    for one in &entries {
        assert!(sorted.contains(one));
    }
    for pair in sorted.windows(2) {
        assert!(!comes_before(&pair[1].count, &pair[0].count));
    }
    assert!(sort_by_count(&Vec::new()).is_empty());
}

#[test]
fn comes_before_orders_by_both_counts() {
    let low = OpcodeCount { acir_size: 1, unconstrained_size: 5 };
    let high = OpcodeCount { acir_size: 2, unconstrained_size: 1 };
    assert!(comes_before(&low, &high));
    assert!(!comes_before(&high, &low));
    assert!(!comes_before(&low, &low));
    let tie = OpcodeCount { acir_size: 1, unconstrained_size: 6 };
    assert!(comes_before(&low, &tie));
    assert!(!comes_before(&tie, &low));
}

#[test]
fn profile_line_shows_line_excerpt_and_counts() {
    let line = profile_line(&entry(4, 16, 26, 2, 1), &artifact()).unwrap();
    assert_eq!(
        line,
        ProfileLine {
            line: 2,
            excerpt: "let x = 1;".to_string(),
            acir_size: 2,
            unconstrained_size: 1,
            path: "src/main.nr".to_string(),
        }
    );
    assert_eq!(line.render(), "Ln. 2: let x = 1; (ACIR:2, Brillig:1 opcode|s) in file: src/main.nr");
}

#[test]
fn profile_line_on_the_first_line() {
    let line = profile_line(&entry(4, 3, 7, 0, 0), &artifact()).unwrap();
    assert_eq!(line.line, 1);
    assert_eq!(line.excerpt, "main");
    assert_eq!(line.render(), "Ln. 1: main (ACIR:0, Brillig:0 opcode|s) in file: src/main.nr");
}

#[test]
fn profile_line_cuts_multi_byte_text_by_characters() {
    let line = profile_line(&entry(9, 3, 7, 12, 345), &artifact()).unwrap();
    assert_eq!(line.excerpt, "café");
    assert_eq!(line.line, 1);
    assert_eq!(line.path, "src/lib.nr");
    assert_eq!(line.render(), "Ln. 1: café (ACIR:12, Brillig:345 opcode|s) in file: src/lib.nr");
    let line = profile_line(&entry(9, 12, 13, 1, 1), &artifact()).unwrap();
    assert_eq!(line.excerpt, "é");
    assert_eq!(line.line, 2);
}

#[test]
fn profile_line_without_the_file_is_a_violation() {
    let missing = entry(5, 0, 1, 1, 1);
    let violation = profile_line(&missing, &artifact()).unwrap_err();
    assert_eq!(violation.location, missing.location);
}

#[test]
fn listing_is_in_ascending_order() {
    let info = DebugInfo::new(vec![entry(4, 16, 26, 2, 1), entry(4, 31, 45, 1, 5)]).unwrap();
    let lines = span_opcodes_lines(&info, &artifact()).unwrap();
    let shown: Vec<String> = lines.iter().map(|line| line.render()).collect();
    assert_eq!(
        shown,
        vec![
            "Ln. 3: assert(x == 1) (ACIR:1, Brillig:5 opcode|s) in file: src/main.nr".to_string(),
            "Ln. 2: let x = 1; (ACIR:2, Brillig:1 opcode|s) in file: src/main.nr".to_string(),
        ]
    );
}

#[test]
fn listing_of_nothing_is_empty() {
    let info = DebugInfo::new(Vec::new()).unwrap();
    assert!(span_opcodes_lines(&info, &artifact()).unwrap().is_empty());
}

#[test]
fn listing_fails_at_the_first_missing_file() {
    let fine = entry(4, 0, 2, 1, 0);
    let late = entry(7, 0, 2, 9, 0);
    let early = entry(8, 0, 2, 5, 0);
    let info = DebugInfo::new(vec![late, fine, early]).unwrap();
    let violation = span_opcodes_lines(&info, &artifact()).unwrap_err();
    assert_eq!(violation.location, early.location);
}

#[test]
fn debug_info_holds_each_location_once() {
    let a = entry(4, 0, 2, 1, 0);
    let b = entry(4, 0, 3, 1, 0);
    let c = entry(5, 0, 2, 1, 0);
    let info = DebugInfo::new(vec![a, b, c]).unwrap();
    assert_eq!(info.entries(), &vec![a, b, c]);
    let again = entry(4, 0, 2, 7, 7);
    assert!(DebugInfo::new(vec![a, b, again]).is_none());
    assert!(DebugInfo::new(vec![a, a]).is_none());
}

#[test]
fn locations_are_compared_by_file_and_range() {
    let a = SourceLocation { file: 1, span: CharRange::new(2, 3).unwrap() };
    assert!(a.same(&SourceLocation { file: 1, span: CharRange::new(2, 3).unwrap() }));
    assert!(!a.same(&SourceLocation { file: 2, span: CharRange::new(2, 3).unwrap() }));
    assert!(!a.same(&SourceLocation { file: 1, span: CharRange::new(1, 3).unwrap() }));
    assert!(!a.same(&SourceLocation { file: 1, span: CharRange::new(2, 4).unwrap() }));
}

#[test]
fn debug_artifact_finds_files_and_lines() {
    let artifact = artifact();
    assert_eq!(artifact.file(4).unwrap().path, "src/main.nr");
    assert!(artifact.file(5).is_none());
    let location = SourceLocation { file: 4, span: CharRange::new(31, 45).unwrap() };
    assert_eq!(artifact.location_line_index(location), Some(2));
    let nowhere = SourceLocation { file: 5, span: CharRange::new(31, 45).unwrap() };
    assert_eq!(artifact.location_line_index(nowhere), None);
}
