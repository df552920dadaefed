//! Extraction of the target table from an HTML document, through the
//! `scraper` crate.

use vstd::prelude::*;

verus! {

/// The content of the organizational-structure table of an HTML document,
/// when one exists: for the first `table` element with class
/// `org-data-table`, every `tr` row in document order, each row the raw
/// concatenated text of each of its `td` cells, in order. Nothing when no
/// such table exists.
pub uninterp spec fn table_cells_of(html: Seq<char>) -> Option<Seq<Seq<Seq<char>>>>;

/// Relies on `scraper::Html::parse_document` (parses any input, collecting
/// recoverable errors instead of failing), `Selector::parse` (cannot fail on
/// the three fixed selectors here, so the `unwrap`s never panic),
/// `Html::select` and `ElementRef::select` (descendant elements matching the
/// selector, in document order) and `ElementRef::text` (descendant text
/// nodes in order).
#[verifier::external_body]
pub fn extract_table_cells(html: &str) -> (r: Option<Vec<Vec<String>>>)
    ensures
        match r {
            Some(rows) => table_cells_of(html@) == Some(rows.deep_view()),
            None => table_cells_of(html@) is None,
        },
{
    let document = scraper::Html::parse_document(html);
    let table_sel = scraper::Selector::parse("table.org-data-table").unwrap();
    let row_sel = scraper::Selector::parse("tr").unwrap();
    let cell_sel = scraper::Selector::parse("td").unwrap();
    let table = document.select(&table_sel).next()?;
    let rows = table.select(&row_sel).map(|row| {
        row.select(&cell_sel).map(|c| c.text().collect::<Vec<_>>().join("")).collect()
    }).collect();
    Some(rows)
}

} // verus!
