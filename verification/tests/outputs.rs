use parse_table::render::{to_csv, to_markdown, total_employees};
use parse_table::rows::map_row;
use parse_table::OrgRow;

fn sample_row(dep: &str, emp: &str, manager: &str) -> OrgRow {
    map_row(
        &vec![
            dep.to_string(),
            emp.to_string(),
            manager.to_string(),
            "Viet".to_string(),
            "Eng".to_string(),
        ],
    )
        .unwrap()
}

#[test]
fn csv_has_header_and_rows_in_order() {
    let records = vec![sample_row("FSOFT", "10", "A"), sample_row("FSOFT XYZ", "20", "B")];
    let csv = to_csv(&records);
    assert_eq!(
        csv,
        "LEVEL,PARENT DEP,DEP,EMP,MANAGER,VIETNAMESE NAME,ENGLISH NAME\n\
         0,,FSOFT,10,A,Viet,Eng\n\
         2,FSOFT,FSOFT XYZ,20,B,Viet,Eng\n"
    );
}

#[test]
fn csv_quotes_fields_with_commas() {
    let records = vec![sample_row("FSOFT", "10", "Doe, Jane")];
    let csv = to_csv(&records);
    assert!(csv.contains("\"Doe, Jane\""));
}

#[test]
fn markdown_layout_and_order() {
    let records = vec![sample_row("FSOFT", "10", "A"), sample_row("FSOFT XYZ", "20", "B")];
    let md = to_markdown(&records);
    assert_eq!(
        md,
        "# Organization Structure\n\n\
         | LEVEL | PARENT DEP | DEP | EMP | MANAGER | VIETNAMESE NAME | ENGLISH NAME |\n\
         |---|---|---|---|---|---|---|\n\
         | 0 |  | FSOFT | 10 | A | Viet | Eng |\n\
         | 2 | FSOFT | FSOFT XYZ | 20 | B | Viet | Eng |\n"
    );
}

#[test]
fn markdown_replaces_pipes_with_slashes() {
    let records = vec![sample_row("FSOFT", "10", "A|B|C")];
    let md = to_markdown(&records);
    assert!(md.contains("| A/B/C |"));
    assert!(!md.contains("A|B"));
}

#[test]
fn round_trip_fields_in_both_outputs() {
    let records = vec![sample_row("FSOFT XYZ", "42", "Carol")];
    let csv = to_csv(&records);
    let md = to_markdown(&records);
    for field in ["2", "FSOFT", "FSOFT XYZ", "42", "Carol", "Viet", "Eng"] {
        assert!(csv.contains(field));
        assert!(md.contains(field));
    }
    assert_eq!(csv.lines().nth(1).unwrap(), "2,FSOFT,FSOFT XYZ,42,Carol,Viet,Eng");
    assert_eq!(md.lines().nth(4).unwrap(), "| 2 | FSOFT | FSOFT XYZ | 42 | Carol | Viet | Eng |");
}

#[test]
fn empty_record_sequence_yields_header_only() {
    let records: Vec<OrgRow> = Vec::new();
    assert_eq!(to_csv(&records), "LEVEL,PARENT DEP,DEP,EMP,MANAGER,VIETNAMESE NAME,ENGLISH NAME\n");
    assert_eq!(
        to_markdown(&records),
        "# Organization Structure\n\n\
         | LEVEL | PARENT DEP | DEP | EMP | MANAGER | VIETNAMESE NAME | ENGLISH NAME |\n\
         |---|---|---|---|---|---|---|\n"
    );
    assert_eq!(total_employees(&records), 0);
}

#[test]
fn totals_skip_unparseable_counts() {
    let records = vec![
        sample_row("FSOFT", "10", "A"),
        sample_row("FSOFT XYZ", "20", "B"),
        sample_row("FSOFT ABC", "", "C"),
    ];
    assert_eq!(total_employees(&records), 30);
}
