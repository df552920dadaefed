use parse_table::rows::map_row;
use parse_table::text::{normalize, parse_usize, usize_to_string};

fn cells(texts: &[&str]) -> Vec<String> {
    texts.iter().map(|t| t.to_string()).collect()
}

#[test]
fn normalize_collapses_whitespace() {
    assert_eq!(normalize("  a\t\n b  "), "a b");
    assert_eq!(normalize("plain"), "plain");
    assert_eq!(normalize(" \t\n "), "");
    assert_eq!(normalize(""), "");
}

#[test]
fn parse_usize_accepts_digit_runs_only() {
    assert_eq!(parse_usize("123"), Some(123));
    assert_eq!(parse_usize("0"), Some(0));
    assert_eq!(parse_usize(""), None);
    assert_eq!(parse_usize("12a"), None);
    assert_eq!(parse_usize("+12"), None);
    assert_eq!(parse_usize("99999999999999999999999999999999"), None);
}

#[test]
fn usize_to_string_renders_decimal() {
    assert_eq!(usize_to_string(0), "0");
    assert_eq!(usize_to_string(7), "7");
    assert_eq!(usize_to_string(1234), "1234");
}

#[test]
fn fields_assigned_from_row_end() {
    let row = map_row(&cells(&["FSOFT XYZ", "12", "Alice", "Ten Viet", "English Name"])).unwrap();
    assert_eq!(row.dep, "FSOFT XYZ");
    assert_eq!(row.emp, "12");
    assert_eq!(row.manager, "Alice");
    assert_eq!(row.vietnamese_name, "Ten Viet");
    assert_eq!(row.english_name, "English Name");
    assert_eq!(row.level, 2);
    assert_eq!(row.parent_dep, "FSOFT");
}

#[test]
fn leading_extra_cells_ignored() {
    let row = map_row(&cells(&["1", "icon", "FSOFT", "500", "Bob", "Viet", "Eng"])).unwrap();
    assert_eq!(row.dep, "FSOFT");
    assert_eq!(row.emp, "500");
    assert_eq!(row.level, 0);
    assert_eq!(row.parent_dep, "");
}

#[test]
fn emp_commas_stripped() {
    let row = map_row(&cells(&["D", "1,234", "M", "V", "E"])).unwrap();
    assert_eq!(row.emp, "1234");
}

#[test]
fn emp_fallback_first_numeric_cell() {
    let row = map_row(&cells(&["56", "D", "N/A", "M", "V", "E"])).unwrap();
    assert_eq!(row.emp, "56");
}

#[test]
fn emp_fallback_strips_spaces_and_commas() {
    let row = map_row(&cells(&["D", "N/A", "M", "V", " 1 , 2 3 "])).unwrap();
    assert_eq!(row.emp, "123");
}

#[test]
fn emp_empty_when_no_numeric_cell() {
    let row = map_row(&cells(&["D", "N/A", "M", "V", "E"])).unwrap();
    assert_eq!(row.emp, "");
}

#[test]
fn short_row_missing_fields_empty() {
    let row = map_row(&cells(&["Viet", "Eng"])).unwrap();
    assert_eq!(row.dep, "");
    assert_eq!(row.emp, "");
    assert_eq!(row.manager, "");
    assert_eq!(row.vietnamese_name, "Viet");
    assert_eq!(row.english_name, "Eng");
    assert_eq!(row.level, 0);
    assert_eq!(row.parent_dep, "FSOFT");
}

#[test]
fn blank_row_dropped() {
    assert!(map_row(&cells(&[])).is_none());
    assert!(map_row(&cells(&["", "  ", "\t", "", ""])).is_none());
}

#[test]
fn comma_only_count_cell_not_numeric() {
    assert!(map_row(&cells(&["", ",,,", "", "", ""])).is_none());
}
