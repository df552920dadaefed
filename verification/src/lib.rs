//! Extraction of an organizational-structure table from HTML, with
//! derivation of hierarchy metadata and rendering as CSV and Markdown.

use vstd::prelude::*;

pub mod config;
pub mod error;
pub mod extract;
pub mod hierarchy;
pub mod render;
pub mod rows;
pub mod text;

pub use config::Config;
pub use error::ParseError;
pub use hierarchy::{compute_level, parent_from_abbr};
pub use rows::OrgRow;

verus! {

/// Everything one run derives from the input document: the record sequence
/// and both serialized forms, with the summary figures.
pub struct Report {
    /// One record per qualifying data row, in row order.
    pub records: Vec<OrgRow>,
    /// The tabular output.
    pub csv_text: String,
    /// The Markdown output.
    pub md_text: String,
    /// The number of records.
    pub department_count: usize,
    /// The records' employee counts summed; unparseable counts add zero.
    pub total_employees: u128,
}

/// Runs the whole pipeline on an HTML document: locates the target table,
/// derives one record per qualifying data row, and renders both outputs.
/// Fails exactly when the document has no table with the expected class.
pub fn process(html: &str) -> (r: Result<Report, ParseError>)
    ensures
        match r {
            Ok(rep) => {
                &&& match extract::table_cells_of(html@) {
                    Some(cells) => rep.records@.map_values(|row: OrgRow| rows::model(row))
                        == rows::records_of(rows::data_rows(cells)),
                    None => false,
                }
                &&& rep.csv_text@ == render::csv_text_of(rep.records@)
                &&& rep.md_text@ == render::md_text_of(rep.records@)
                &&& rep.department_count == rep.records@.len()
                &&& rep.total_employees as nat == render::sum_emps(rep.records@)
            },
            Err(e) => e is NoTable && extract::table_cells_of(html@) is None,
        },
{
    match extract::extract_table_cells(html) {
        None => Err(ParseError::NoTable),
        Some(table_rows) => {
            let records = rows::build_records(&table_rows);
            let csv_text = render::to_csv(&records);
            let md_text = render::to_markdown(&records);
            let department_count = records.len();
            let total_employees = render::total_employees(&records);
            Ok(
                Report {
                    records,
                    csv_text,
                    md_text,
                    department_count,
                    total_employees,
                },
            )
        },
    }
}

} // verus!
