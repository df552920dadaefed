//! The row mapper: assigns a table row's cells to the record's fields by
//! position from the end of the row, with a numeric fallback for the
//! employee count, and builds the record sequence for a whole table.

use vstd::prelude::*;

use crate::hierarchy::{compute_level, level_spec, parent_from_abbr, parent_spec};
use crate::text::{
    all_digits, check_all_digits, digit_candidate, digit_candidate_spec, normalize,
    normalize_spec, strip_commas, strip_commas_spec,
};

verus! {

/// One row of the organizational structure, fully derived.
pub struct OrgRow {
    /// Depth level in the hierarchy (0 for the root organization).
    pub level: usize,
    /// Parent department abbreviation (empty for the root organization).
    pub parent_dep: String,
    /// Department abbreviation, whitespace-normalized.
    pub dep: String,
    /// Number of employees in decimal, or empty if undeterminable.
    pub emp: String,
    /// Manager identifier.
    pub manager: String,
    /// Department name in Vietnamese.
    pub vietnamese_name: String,
    /// Department name in English.
    pub english_name: String,
}

/// The mathematical shadow of an `OrgRow`.
pub struct RowModel {
    pub level: nat,
    pub parent_dep: Seq<char>,
    pub dep: Seq<char>,
    pub emp: Seq<char>,
    pub manager: Seq<char>,
    pub vietnamese_name: Seq<char>,
    pub english_name: Seq<char>,
}

/// The model of a concrete row.
pub open spec fn model(r: OrgRow) -> RowModel {
    RowModel {
        level: r.level as nat,
        parent_dep: r.parent_dep@,
        dep: r.dep@,
        emp: r.emp@,
        manager: r.manager@,
        vietnamese_name: r.vietnamese_name@,
        english_name: r.english_name@,
    }
}

/// The normalized text of the cell `back` positions from the row's end;
/// empty when the row is too short.
pub open spec fn cell_field(cells: Seq<Seq<char>>, back: int) -> Seq<char> {
    if cells.len() >= back {
        normalize_spec(cells[cells.len() - back])
    } else {
        Seq::<char>::empty()
    }
}

/// The tentative employee count: the trailing-4th cell, normalized and with
/// commas stripped; empty when the row is too short.
pub open spec fn tentative_emp(cells: Seq<Seq<char>>) -> Seq<char> {
    if cells.len() >= 4 {
        strip_commas_spec(normalize_spec(cells[cells.len() - 4]))
    } else {
        Seq::<char>::empty()
    }
}

/// The first cell, scanned left to right, whose whitespace-and-comma
/// stripped text is a non-empty run of ASCII digits; empty if none is.
pub open spec fn first_numeric(cells: Seq<Seq<char>>) -> Seq<char>
    decreases cells.len(),
{
    if cells.len() == 0 {
        Seq::<char>::empty()
    } else {
        let cand = digit_candidate_spec(cells[0]);
        if cand.len() > 0 && all_digits(cand) {
            cand
        } else {
            first_numeric(cells.drop_first())
        }
    }
}

/// The employee-count field of a row: the tentative value when it is a
/// non-empty run of ASCII digits, otherwise the first numeric cell.
pub open spec fn emp_field(cells: Seq<Seq<char>>) -> Seq<char> {
    let tent = tentative_emp(cells);
    if tent.len() > 0 && all_digits(tent) {
        tent
    } else {
        first_numeric(cells)
    }
}

/// A row is emitted only if at least one of its five extracted fields is
/// non-empty.
pub open spec fn qualifies(cells: Seq<Seq<char>>) -> bool {
    cell_field(cells, 5).len() > 0 || emp_field(cells).len() > 0 || cell_field(cells, 3).len() > 0
        || cell_field(cells, 2).len() > 0 || cell_field(cells, 1).len() > 0
}

/// The record derived from one row's cells.
pub open spec fn row_model_of(cells: Seq<Seq<char>>) -> RowModel {
    RowModel {
        level: level_spec(cell_field(cells, 5)),
        parent_dep: parent_spec(cell_field(cells, 5)),
        dep: cell_field(cells, 5),
        emp: emp_field(cells),
        manager: cell_field(cells, 3),
        vietnamese_name: cell_field(cells, 2),
        english_name: cell_field(cells, 1),
    }
}

/// The records of a table's data rows, in row order: one record per
/// qualifying row.
pub open spec fn records_of(rows: Seq<Seq<Seq<char>>>) -> Seq<RowModel>
    decreases rows.len(),
{
    if rows.len() == 0 {
        Seq::<RowModel>::empty()
    } else if qualifies(rows.last()) {
        records_of(rows.drop_last()).push(row_model_of(rows.last()))
    } else {
        records_of(rows.drop_last())
    }
}

/// A row is blank when every one of its cells normalizes to the empty
/// string.
pub open spec fn nonblank(cells: Seq<Seq<char>>) -> bool {
    exists|j: int| 0 <= j < cells.len() && normalize_spec(cells[j]).len() > 0
}

/// A non-empty first numeric candidate points at a cell whose stripped text
/// is non-empty.
proof fn lemma_first_numeric_witness(cells: Seq<Seq<char>>) -> (j: int)
    requires
        first_numeric(cells).len() > 0,
    ensures
        0 <= j < cells.len(),
        digit_candidate_spec(cells[j]).len() > 0,
    decreases cells.len(),
{
    let cand = digit_candidate_spec(cells[0]);
    if cand.len() > 0 && all_digits(cand) {
        0
    } else {
        lemma_first_numeric_witness(cells.drop_first()) + 1
    }
}

/// Every qualifying row is non-blank: some cell of it normalizes to a
/// non-empty string.
pub proof fn lemma_qualifies_nonblank(cells: Seq<Seq<char>>)
    requires
        qualifies(cells),
    ensures
        nonblank(cells),
{
    if cell_field(cells, 5).len() > 0 {
        assert(normalize_spec(cells[cells.len() - 5]).len() > 0);
    } else if cell_field(cells, 3).len() > 0 {
        assert(normalize_spec(cells[cells.len() - 3]).len() > 0);
    } else if cell_field(cells, 2).len() > 0 {
        assert(normalize_spec(cells[cells.len() - 2]).len() > 0);
    } else if cell_field(cells, 1).len() > 0 {
        assert(normalize_spec(cells[cells.len() - 1]).len() > 0);
    } else {
        let tent = tentative_emp(cells);
        if tent.len() > 0 && all_digits(tent) {
            crate::text::lemma_strip_commas_len(normalize_spec(cells[cells.len() - 4]));
            assert(normalize_spec(cells[cells.len() - 4]).len() > 0);
        } else {
            let j = lemma_first_numeric_witness(cells);
            let w = crate::text::lemma_digit_candidate_has_char(cells[j]);
            crate::text::lemma_normalize_nonempty(cells[j], w);
            assert(normalize_spec(cells[j]).len() > 0);
        }
    }
}

/// The predicate "the row qualifies for emission", as a function value.
pub open spec fn qualifies_pred() -> spec_fn(Seq<Seq<char>>) -> bool {
    |r: Seq<Seq<char>>| qualifies(r)
}

/// The predicate "some cell normalizes to non-empty", as a function value.
pub open spec fn nonblank_pred() -> spec_fn(Seq<Seq<char>>) -> bool {
    |r: Seq<Seq<char>>| nonblank(r)
}

/// The record derivation, as a function value.
pub open spec fn row_model_fn() -> spec_fn(Seq<Seq<char>>) -> RowModel {
    |r: Seq<Seq<char>>| row_model_of(r)
}

/// The records of a table are exactly its qualifying rows, in their
/// relative order in the table, each mapped to its derived record.
pub proof fn lemma_records_order(table: Seq<Seq<Seq<char>>>)
    ensures
        records_of(table) == table.filter(qualifies_pred()).map_values(row_model_fn()),
    decreases table.len(),
{
    reveal(Seq::filter);
    if table.len() == 0 {
        assert(records_of(table) =~= table.filter(qualifies_pred()).map_values(row_model_fn()));
    } else {
        lemma_records_order(table.drop_last());
        let sub = table.drop_last().filter(qualifies_pred());
        if qualifies(table.last()) {
            assert(table.filter(qualifies_pred()) == sub.push(table.last()));
            assert(sub.push(table.last()).map_values(row_model_fn()) =~= sub.map_values(
                row_model_fn(),
            ).push(row_model_of(table.last())));
        } else {
            assert(table.filter(qualifies_pred()) == sub);
        }
    }
}

/// On a table whose non-blank rows all qualify, the pipeline emits exactly
/// one record per non-blank data row.
pub proof fn lemma_record_count(table: Seq<Seq<Seq<char>>>)
    requires
        forall|i: int|
            0 <= i < table.len() ==> (nonblank(#[trigger] table[i]) ==> qualifies(table[i])),
    ensures
        records_of(table).len() == table.filter(nonblank_pred()).len(),
    decreases table.len(),
{
    reveal(Seq::filter);
    if table.len() > 0 {
        assert(forall|i: int|
            0 <= i < table.drop_last().len() ==> (nonblank(#[trigger] table.drop_last()[i])
                ==> qualifies(table.drop_last()[i])));
        lemma_record_count(table.drop_last());
        if qualifies(table.last()) {
            lemma_qualifies_nonblank(table.last());
        } else {
            assert(!nonblank(table.last()));
        }
    }
}

/// The data rows of a table: everything after the header row.
pub open spec fn data_rows(rows: Seq<Seq<Seq<char>>>) -> Seq<Seq<Seq<char>>> {
    if rows.len() == 0 {
        Seq::<Seq<Seq<char>>>::empty()
    } else {
        rows.drop_first()
    }
}

/// True when the string has at least one character.
fn nonempty(s: &String) -> (r: bool)
    ensures
        r == (s@.len() > 0),
{
    s.as_str().unicode_len() > 0
}

/// Scans all cells left to right for the first numeric candidate.
fn find_numeric_cell(cells: &Vec<String>) -> (r: String)
    ensures
        r@ == first_numeric(cells.deep_view()),
{
    let ghost dv = cells.deep_view();
    let mut i: usize = 0;
    proof {
        assert(dv.skip(0) =~= dv);
    }
    while i < cells.len()
        invariant
            i <= cells.len(),
            dv == cells.deep_view(),
            first_numeric(dv) == first_numeric(dv.skip(i as int)),
        decreases cells.len() - i,
    {
        let cand = digit_candidate(cells[i].as_str());
        if nonempty(&cand) && check_all_digits(cand.as_str()) {
            return cand;
        }
        proof {
            assert(dv.skip(i as int).drop_first() =~= dv.skip(i + 1));
        }
        i += 1;
    }
    proof {
        assert(first_numeric(dv.skip(cells.len() as int)) =~= Seq::<char>::empty());
    }
    String::new()
}

/// Maps one row's raw cell texts to a record, or to nothing when every
/// extracted field normalizes to empty.
pub fn map_row(cells: &Vec<String>) -> (r: Option<OrgRow>)
    ensures
        match r {
            Some(row) => qualifies(cells.deep_view()) && model(row) == row_model_of(
                cells.deep_view(),
            ),
            None => !qualifies(cells.deep_view()),
        },
{
    let n = cells.len();
    let dep = if n >= 5 {
        normalize(cells[n - 5].as_str())
    } else {
        String::new()
    };
    let manager = if n >= 3 {
        normalize(cells[n - 3].as_str())
    } else {
        String::new()
    };
    let vietnamese_name = if n >= 2 {
        normalize(cells[n - 2].as_str())
    } else {
        String::new()
    };
    let english_name = if n >= 1 {
        normalize(cells[n - 1].as_str())
    } else {
        String::new()
    };
    let tentative = if n >= 4 {
        let norm = normalize(cells[n - 4].as_str());
        strip_commas(norm.as_str())
    } else {
        String::new()
    };
    let emp = if nonempty(&tentative) && check_all_digits(tentative.as_str()) {
        tentative
    } else {
        find_numeric_cell(cells)
    };
    if nonempty(&dep) || nonempty(&emp) || nonempty(&manager) || nonempty(&vietnamese_name)
        || nonempty(&english_name) {
        let level = compute_level(dep.as_str());
        let parent_dep = parent_from_abbr(dep.as_str());
        Some(
            OrgRow {
                level,
                parent_dep,
                dep,
                emp,
                manager,
                vietnamese_name,
                english_name,
            },
        )
    } else {
        None
    }
}

/// Builds the record sequence of a whole table: the first row is the header
/// and is skipped, each remaining row contributes a record when it
/// qualifies, in row order.
pub fn build_records(rows: &Vec<Vec<String>>) -> (r: Vec<OrgRow>)
    ensures
        r@.map_values(|row: OrgRow| model(row)) == records_of(data_rows(rows.deep_view())),
{
    let ghost dv = rows.deep_view();
    let mut out: Vec<OrgRow> = Vec::new();
    if rows.len() == 0 {
        proof {
            assert(out@.map_values(|row: OrgRow| model(row)) =~= records_of(data_rows(dv)));
        }
        return out;
    }
    let mut i: usize = 1;
    proof {
        assert(out@.map_values(|row: OrgRow| model(row)) =~= records_of(dv.subrange(1, 1)));
    }
    while i < rows.len()
        invariant
            1 <= i <= rows.len(),
            dv == rows.deep_view(),
            rows.len() >= 1,
            out@.map_values(|row: OrgRow| model(row)) == records_of(dv.subrange(1, i as int)),
        decreases rows.len() - i,
    {
        let rec = map_row(&rows[i]);
        proof {
            assert(dv.subrange(1, i + 1).drop_last() =~= dv.subrange(1, i as int));
            assert(dv.subrange(1, i + 1).last() == dv[i as int]);
        }
        match rec {
            Some(row) => {
                let ghost before = out@.map_values(|row: OrgRow| model(row));
                out.push(row);
                proof {
                    assert(out@.map_values(|row: OrgRow| model(row)) =~= before.push(model(row)));
                }
            },
            None => {},
        }
        i += 1;
    }
    proof {
        assert(dv.subrange(1, dv.len() as int) =~= data_rows(dv));
    }
    out
}

} // verus!
