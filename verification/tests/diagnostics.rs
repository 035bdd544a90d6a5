use diagnostic_ls::diagnostics::{
    process_update, render_diagnostic, render_diagnostics, DiagnosticRecord, DiagnosticReport,
    PositionRange,
};
use diagnostic_ls::record::{ParseErrorRecord, Span};
use diagnostic_ls::text_index::{IndexError, Position, TextIndex};

fn error_at(start: usize, end: usize) -> ParseErrorRecord {
    ParseErrorRecord { span: Span { start, end }, label: None, found: None, expected: vec![] }
}

fn range(a: (usize, usize), b: (usize, usize)) -> PositionRange {
    PositionRange {
        start: Position { line: a.0, column: a.1 },
        end: Position { line: b.0, column: b.1 },
    }
}

const BARE: &str = "Unexpected end of input, expected something else";

#[test]
fn valid_input_gives_an_empty_report_at_the_current_version() {
    let report = process_update("{}", 7, &vec![]);
    assert_eq!(report, Ok(DiagnosticReport { version: 7, diagnostics: vec![] }));
}

#[test]
fn empty_text_without_errors_gives_an_empty_report() {
    let report = process_update("", 0, &vec![]);
    assert_eq!(report, Ok(DiagnosticReport { version: 0, diagnostics: vec![] }));
}

#[test]
fn empty_text_with_an_error_at_its_end() {
    let report = process_update("", 1, &vec![error_at(0, 0)]).unwrap();
    assert_eq!(
        report.diagnostics,
        vec![DiagnosticRecord { range: range((0, 0), (0, 0)), message: BARE.to_string() }]
    );
}

#[test]
fn dangling_value_after_a_colon_is_on_the_second_line() {
    let text = "{\n  \"a\": ,\n}";
    let comma = text.chars().position(|c| c == ',').unwrap();
    assert_eq!(comma, 9);
    let error = ParseErrorRecord {
        span: Span { start: comma, end: comma + 1 },
        label: None,
        found: Some(",".to_string()),
        expected: vec![Some("{".to_string()), Some("[".to_string())],
    };
    let report = process_update(text, 3, &vec![error]).unwrap();
    assert_eq!(report.version, 3);
    assert_eq!(report.diagnostics.len(), 1);
    let diagnostic = &report.diagnostics[0];
    assert_eq!(diagnostic.range.start.line, 1);
    assert_eq!(diagnostic.range.start.column, 7);
    assert_eq!(diagnostic.range, range((1, 7), (1, 8)));
    assert_eq!(diagnostic.message, "Unexpected token, expected {, [");
}

#[test]
fn one_diagnostic_for_each_error_in_the_parsers_order() {
    let text = "ab\ncd\nef";
    // Discovery order, not sorted by place.
    let errors = vec![error_at(7, 8), error_at(0, 1), error_at(4, 7), error_at(3, 3)];
    let report = process_update(text, 12, &errors).unwrap();
    assert_eq!(report.diagnostics.len(), errors.len());
    let ranges: Vec<PositionRange> = report.diagnostics.iter().map(|d| d.range).collect();
    assert_eq!(
        ranges,
        vec![
            range((2, 1), (2, 2)),
            range((0, 0), (0, 1)),
            range((1, 1), (2, 1)),
            range((1, 0), (1, 0)),
        ]
    );
    let index = TextIndex::new(text);
    for (error, diagnostic) in errors.iter().zip(report.diagnostics.iter()) {
        assert_eq!(index.to_position(error.span.start), Ok(diagnostic.range.start));
        assert_eq!(index.to_position(error.span.end), Ok(diagnostic.range.end));
    }
}

#[test]
fn equal_errors_are_all_reported() {
    let errors = vec![error_at(1, 2), error_at(1, 2), error_at(1, 2)];
    let report = process_update("abc", 1, &errors).unwrap();
    assert_eq!(report.diagnostics.len(), 3);
    assert_eq!(report.diagnostics[0], report.diagnostics[1]);
    assert_eq!(report.diagnostics[1], report.diagnostics[2]);
}

#[test]
fn span_may_end_at_the_end_of_the_text() {
    let report = process_update("ab\ncd", 1, &vec![error_at(5, 5)]).unwrap();
    assert_eq!(report.diagnostics[0].range, range((1, 2), (1, 2)));
}

#[test]
fn span_beyond_the_text_aborts_the_update() {
    let errors = vec![error_at(0, 1), error_at(2, 6), error_at(9, 9)];
    assert_eq!(
        process_update("ab\ncd", 4, &errors),
        Err(IndexError::OutOfRange { index: 6, len: 5 })
    );
}

#[test]
fn start_beyond_the_text_is_reported_before_the_end() {
    let index = TextIndex::new("abc");
    assert_eq!(
        render_diagnostic(&index, &error_at(4, 8)),
        Err(IndexError::OutOfRange { index: 4, len: 3 })
    );
    assert_eq!(
        render_diagnostic(&index, &error_at(8, 2)),
        Err(IndexError::OutOfRange { index: 8, len: 3 })
    );
}

#[test]
fn render_diagnostic_joins_range_and_message() {
    let index = TextIndex::new("[\n1,\n]");
    let error = ParseErrorRecord {
        span: Span { start: 4, end: 5 },
        label: Some("array".to_string()),
        found: Some("\n".to_string()),
        expected: vec![None],
    };
    assert_eq!(
        render_diagnostic(&index, &error),
        Ok(DiagnosticRecord {
            range: range((1, 2), (2, 0)),
            message: "Unexpected token while parsing array, expected end of input".to_string(),
        })
    );
}

#[test]
fn render_diagnostics_of_no_errors_is_empty() {
    let index = TextIndex::new("{}");
    assert_eq!(render_diagnostics(&index, &vec![]), Ok(vec![]));
}

#[test]
fn render_diagnostics_stops_at_the_first_span_outside() {
    let index = TextIndex::new("abc");
    let errors = vec![error_at(0, 3), error_at(7, 1), error_at(5, 5)];
    assert_eq!(
        render_diagnostics(&index, &errors),
        Err(IndexError::OutOfRange { index: 7, len: 3 })
    );
}

#[test]
fn running_an_update_twice_gives_the_same_report() {
    let text = "{\r\n  \"k\": [1, ,\n}";
    let errors = vec![
        ParseErrorRecord {
            span: Span { start: 14, end: 15 },
            label: Some("array".to_string()),
            found: Some(",".to_string()),
            expected: vec![Some("]".to_string()), None],
        },
        error_at(17, 17),
    ];
    assert_eq!(text.chars().count(), 17);
    let first = process_update(text, 5, &errors);
    let second = process_update(text, 5, &errors);
    assert!(first.is_ok());
    assert_eq!(first, second);
    assert_eq!(format!("{:?}", first), format!("{:?}", second));
}

#[test]
fn report_carries_the_version_that_was_handed_in() {
    for version in [i32::MIN, -1, 0, 1, i32::MAX] {
        let report = process_update("x", version, &vec![error_at(0, 1)]).unwrap();
        assert_eq!(report.version, version);
    }
}
