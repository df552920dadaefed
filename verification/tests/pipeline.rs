use parse_table::{process, ParseError};

const DOC: &str = r#"<html><body>
<h1>Report</h1>
<table class="org-data-table">
  <tr><th>DEP</th><th>EMP</th><th>MANAGER</th><th>VN</th><th>EN</th></tr>
  <tr><td> FSOFT </td><td>1,234</td><td>Root Boss</td><td>Tap doan</td><td>Corporation</td></tr>
  <tr><td>56</td><td>FSOFT
      XYZ</td><td>N/A</td><td>Alice</td><td>Don vi</td><td>Unit</td></tr>
  <tr><td></td><td>  </td><td></td><td></td><td></td></tr>
  <tr></tr>
  <tr><td>HR</td><td>7</td><td>Bob</td><td>Nhan su</td><td>Human Resources</td></tr>
</table>
</body></html>"#;

#[test]
fn records_one_per_qualifying_row_in_order() {
    let report = process(DOC).unwrap();
    assert_eq!(report.records.len(), 3);
    assert_eq!(report.department_count, 3);
    assert_eq!(report.records[0].dep, "FSOFT");
    assert_eq!(report.records[1].dep, "FSOFT XYZ");
    assert_eq!(report.records[2].dep, "HR");
}

#[test]
fn cell_text_normalized_and_hierarchy_derived() {
    let report = process(DOC).unwrap();
    let first = &report.records[0];
    assert_eq!(first.level, 0);
    assert_eq!(first.parent_dep, "");
    assert_eq!(first.emp, "1234");
    assert_eq!(first.manager, "Root Boss");
    let second = &report.records[1];
    assert_eq!(second.dep, "FSOFT XYZ");
    assert_eq!(second.level, 2);
    assert_eq!(second.parent_dep, "FSOFT");
    assert_eq!(second.emp, "56");
    let third = &report.records[2];
    assert_eq!(third.level, 1);
    assert_eq!(third.parent_dep, "FSOFT");
    assert_eq!(third.emp, "7");
}

#[test]
fn outputs_and_totals_from_document() {
    let report = process(DOC).unwrap();
    assert_eq!(report.total_employees, 1234 + 56 + 7);
    assert!(report.csv_text.starts_with("LEVEL,PARENT DEP,DEP,EMP,MANAGER,VIETNAMESE NAME,ENGLISH NAME\n"));
    assert_eq!(report.csv_text.lines().count(), 4);
    assert!(report.csv_text.contains("0,,FSOFT,1234,Root Boss,Tap doan,Corporation"));
    assert!(report.md_text.contains("| 2 | FSOFT | FSOFT XYZ | 56 | Alice | Don vi | Unit |"));
}

#[test]
fn missing_table_is_no_table_error() {
    let doc = "<html><body><table class=\"other\"><tr><td>x</td></tr></table></body></html>";
    match process(doc) {
        Err(ParseError::NoTable) => {},
        _ => panic!("expected the no-table failure"),
    }
}

#[test]
fn header_only_table_yields_empty_outputs() {
    let doc = "<html><body><table class=\"org-data-table\">\
               <tr><th>DEP</th><th>EMP</th></tr></table></body></html>";
    let report = process(doc).unwrap();
    assert_eq!(report.department_count, 0);
    assert_eq!(report.total_employees, 0);
    assert_eq!(report.csv_text, "LEVEL,PARENT DEP,DEP,EMP,MANAGER,VIETNAMESE NAME,ENGLISH NAME\n");
    assert_eq!(
        report.md_text,
        "# Organization Structure\n\n\
         | LEVEL | PARENT DEP | DEP | EMP | MANAGER | VIETNAMESE NAME | ENGLISH NAME |\n\
         |---|---|---|---|---|---|---|\n"
    );
}

#[test]
fn first_matching_table_wins() {
    let doc = "<html><body>\
        <table><tr><th>h</th></tr><tr><td>IGNORED</td></tr></table>\
        <table class=\"org-data-table\">\
        <tr><th>h</th></tr>\
        <tr><td>HR</td><td>3</td><td>M</td><td>V</td><td>E</td></tr>\
        </table></body></html>";
    let report = process(doc).unwrap();
    assert_eq!(report.records.len(), 1);
    assert_eq!(report.records[0].dep, "HR");
}

#[test]
fn error_messages() {
    assert_eq!(
        ParseError::NoTable.message(),
        "No table found with class 'org-data-table'"
    );
    assert_eq!(ParseError::Io("gone".to_string()).message(), "IO error: gone");
    assert_eq!(ParseError::Html("bad".to_string()).message(), "HTML parsing error: bad");
}
