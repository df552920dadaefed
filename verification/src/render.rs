//! Serialization of the record sequence: delimited tabular text through the
//! `csv` crate, a Markdown table built directly, and the run summary.

use vstd::prelude::*;

use crate::rows::{model, OrgRow, RowModel};
use crate::text::{all_digits, dec_str, parse_usize, parse_usize_spec, push_char, usize_to_string};

verus! {

/// What `csv::Writer` produces for one record: the fields comma-delimited,
/// quoted and escaped where the format requires it, ending in a newline.
pub uninterp spec fn csv_line_of(fields: Seq<Seq<char>>) -> Seq<char>;

/// Relies on `csv::Writer::from_writer`, `Writer::write_record` and
/// `Writer::into_inner`: encodes the fields as one line of delimited text
/// with the format's quoting rules. Writing into an in-memory buffer cannot
/// fail, and the encoding of UTF-8 fields is valid UTF-8, so the two
/// `unwrap`s never panic.
#[verifier::external_body]
fn csv_encode_line(fields: &Vec<String>) -> (r: String)
    ensures
        r@ == csv_line_of(fields.deep_view()),
{
    let mut writer = csv::Writer::from_writer(Vec::new());
    let _ = writer.write_record(fields.iter());
    let bytes = writer.into_inner().unwrap();
    String::from_utf8(bytes).unwrap()
}

/// The seven column names, in their fixed order.
pub open spec fn header_fields() -> Seq<Seq<char>> {
    seq![
        "LEVEL"@,
        "PARENT DEP"@,
        "DEP"@,
        "EMP"@,
        "MANAGER"@,
        "VIETNAMESE NAME"@,
        "ENGLISH NAME"@,
    ]
}

/// The seven fields of one record, in column order, the level rendered in
/// decimal.
pub open spec fn fields_of(m: RowModel) -> Seq<Seq<char>> {
    seq![
        dec_str(m.level),
        m.parent_dep,
        m.dep,
        m.emp,
        m.manager,
        m.vietnamese_name,
        m.english_name,
    ]
}

/// The data lines of the tabular output, one per record, in record order.
pub open spec fn csv_body(rs: Seq<OrgRow>) -> Seq<char>
    decreases rs.len(),
{
    if rs.len() == 0 {
        Seq::<char>::empty()
    } else {
        csv_body(rs.drop_last()) + csv_line_of(fields_of(model(rs.last())))
    }
}

/// The whole tabular output: a header line, then one line per record.
pub open spec fn csv_text_of(rs: Seq<OrgRow>) -> Seq<char> {
    csv_line_of(header_fields()) + csv_body(rs)
}

/// Builds the header row's fields.
fn header_vec() -> (r: Vec<String>)
    ensures
        r.deep_view() == header_fields(),
{
    let mut v: Vec<String> = Vec::new();
    v.push(String::from_str("LEVEL"));
    v.push(String::from_str("PARENT DEP"));
    v.push(String::from_str("DEP"));
    v.push(String::from_str("EMP"));
    v.push(String::from_str("MANAGER"));
    v.push(String::from_str("VIETNAMESE NAME"));
    v.push(String::from_str("ENGLISH NAME"));
    proof {
        assert(v.deep_view() =~= header_fields());
    }
    v
}

/// Builds one record's fields, in column order.
fn fields_vec(r: &OrgRow) -> (v: Vec<String>)
    ensures
        v.deep_view() == fields_of(model(*r)),
{
    let mut v: Vec<String> = Vec::new();
    v.push(usize_to_string(r.level));
    v.push(r.parent_dep.clone());
    v.push(r.dep.clone());
    v.push(r.emp.clone());
    v.push(r.manager.clone());
    v.push(r.vietnamese_name.clone());
    v.push(r.english_name.clone());
    proof {
        assert(v.deep_view() =~= fields_of(model(*r)));
    }
    v
}

/// Renders the records as delimited tabular text: the header line, then one
/// line per record in record order.
pub fn to_csv(records: &Vec<OrgRow>) -> (r: String)
    ensures
        r@ == csv_text_of(records@),
{
    let header = header_vec();
    let mut out = csv_encode_line(&header);
    let mut i: usize = 0;
    proof {
        assert(csv_body(records@.take(0)) =~= Seq::<char>::empty());
        assert(out@ =~= csv_line_of(header_fields()) + csv_body(records@.take(0)));
    }
    while i < records.len()
        invariant
            i <= records.len(),
            out@ == csv_line_of(header_fields()) + csv_body(records@.take(i as int)),
        decreases records.len() - i,
    {
        let fields = fields_vec(&records[i]);
        let line = csv_encode_line(&fields);
        out.append(line.as_str());
        proof {
            assert(records@.take(i + 1).drop_last() =~= records@.take(i as int));
            assert(records@.take(i + 1).last() == records@[i as int]);
            assert(out@ =~= csv_line_of(header_fields()) + csv_body(records@.take(i + 1)));
        }
        i += 1;
    }
    proof {
        assert(records@.take(records.len() as int) =~= records@);
    }
    out
}

/// A field as it appears in a Markdown cell: every pipe replaced by a slash.
pub open spec fn md_cell(s: Seq<char>) -> Seq<char> {
    s.map_values(|c: char| if c == '|' { '/' } else { c })
}

/// Replaces every pipe character by a slash.
pub fn pipe_to_slash(s: &str) -> (r: String)
    ensures
        r@ == md_cell(s@),
{
    let n = s.unicode_len();
    let mut out = String::new();
    let mut i: usize = 0;
    proof {
        assert(out@ =~= md_cell(s@.take(0)));
    }
    while i < n
        invariant
            i <= n,
            n == s@.len(),
            out@ == md_cell(s@.take(i as int)),
        decreases n - i,
    {
        let c = s.get_char(i);
        if c == '|' {
            push_char(&mut out, '/');
        } else {
            push_char(&mut out, c);
        }
        proof {
            assert(out@ =~= md_cell(s@.take(i + 1)));
        }
        i += 1;
    }
    proof {
        assert(s@.take(n as int) =~= s@);
    }
    out
}

/// One Markdown table row over the given fields, each shown with its pipes
/// replaced.
pub open spec fn md_line_of(fields: Seq<Seq<char>>) -> Seq<char>
    recommends
        fields.len() == 7,
{
    "| "@ + md_cell(fields[0]) + " | "@ + md_cell(fields[1]) + " | "@ + md_cell(fields[2]) + " | "@
        + md_cell(fields[3]) + " | "@ + md_cell(fields[4]) + " | "@ + md_cell(fields[5]) + " | "@
        + md_cell(fields[6]) + " |\n"@
}

/// The fixed head of the Markdown output: title, column header, alignment
/// separator.
pub open spec fn md_header() -> Seq<char> {
    "# Organization Structure\n\n"@
        + "| LEVEL | PARENT DEP | DEP | EMP | MANAGER | VIETNAMESE NAME | ENGLISH NAME |\n"@
        + "|---|---|---|---|---|---|---|\n"@
}

/// The Markdown rows, one per record, in record order.
pub open spec fn md_body(rs: Seq<OrgRow>) -> Seq<char>
    decreases rs.len(),
{
    if rs.len() == 0 {
        Seq::<char>::empty()
    } else {
        md_body(rs.drop_last()) + md_line_of(fields_of(model(rs.last())))
    }
}

/// The whole Markdown output.
pub open spec fn md_text_of(rs: Seq<OrgRow>) -> Seq<char> {
    md_header() + md_body(rs)
}

/// The decimal rendering of a number consists of digits only.
pub proof fn lemma_dec_str_digits(n: nat)
    ensures
        all_digits(dec_str(n)),
    decreases n,
{
    if n >= 10 {
        lemma_dec_str_digits(n / 10);
    }
}

/// Builds one record's Markdown table row.
fn md_row(r: &OrgRow) -> (line: String)
    ensures
        line@ == md_line_of(fields_of(model(*r))),
{
    let mut line = String::from_str("| ");
    let level_text = usize_to_string(r.level);
    line.append(level_text.as_str());
    line.append(" | ");
    let cell1 = pipe_to_slash(r.parent_dep.as_str());
    line.append(cell1.as_str());
    line.append(" | ");
    let cell2 = pipe_to_slash(r.dep.as_str());
    line.append(cell2.as_str());
    line.append(" | ");
    let cell3 = pipe_to_slash(r.emp.as_str());
    line.append(cell3.as_str());
    line.append(" | ");
    let cell4 = pipe_to_slash(r.manager.as_str());
    line.append(cell4.as_str());
    line.append(" | ");
    let cell5 = pipe_to_slash(r.vietnamese_name.as_str());
    line.append(cell5.as_str());
    line.append(" | ");
    let cell6 = pipe_to_slash(r.english_name.as_str());
    line.append(cell6.as_str());
    line.append(" |\n");
    proof {
        lemma_dec_str_digits(r.level as nat);
        assert(md_cell(dec_str(r.level as nat)) =~= dec_str(r.level as nat));
        assert(line@ =~= md_line_of(fields_of(model(*r))));
    }
    line
}

/// Renders the records as a Markdown table under a report heading, one row
/// per record in record order, pipes inside fields replaced by slashes.
pub fn to_markdown(records: &Vec<OrgRow>) -> (r: String)
    ensures
        r@ == md_text_of(records@),
{
    let mut out = String::from_str("# Organization Structure\n\n");
    out.append("| LEVEL | PARENT DEP | DEP | EMP | MANAGER | VIETNAMESE NAME | ENGLISH NAME |\n");
    out.append("|---|---|---|---|---|---|---|\n");
    let mut i: usize = 0;
    proof {
        assert(out@ =~= md_header() + md_body(records@.take(0)));
    }
    while i < records.len()
        invariant
            i <= records.len(),
            out@ == md_header() + md_body(records@.take(i as int)),
        decreases records.len() - i,
    {
        let line = md_row(&records[i]);
        out.append(line.as_str());
        proof {
            assert(records@.take(i + 1).drop_last() =~= records@.take(i as int));
            assert(records@.take(i + 1).last() == records@[i as int]);
            assert(out@ =~= md_header() + md_body(records@.take(i + 1)));
        }
        i += 1;
    }
    proof {
        assert(records@.take(records.len() as int) =~= records@);
    }
    out
}

/// The given pieces, concatenated in order.
pub open spec fn concat_all(parts: Seq<Seq<char>>) -> Seq<char>
    decreases parts.len(),
{
    if parts.len() == 0 {
        Seq::<char>::empty()
    } else {
        concat_all(parts.drop_last()) + parts.last()
    }
}

/// One record's tabular line, as a function value.
pub open spec fn csv_line_fn() -> spec_fn(OrgRow) -> Seq<char> {
    |r: OrgRow| csv_line_of(fields_of(model(r)))
}

/// One record's Markdown row, as a function value.
pub open spec fn md_line_fn() -> spec_fn(OrgRow) -> Seq<char> {
    |r: OrgRow| md_line_of(fields_of(model(r)))
}

proof fn lemma_csv_body_concat(rs: Seq<OrgRow>)
    ensures
        csv_body(rs) == concat_all(rs.map_values(csv_line_fn())),
    decreases rs.len(),
{
    if rs.len() == 0 {
        assert(csv_body(rs) =~= concat_all(rs.map_values(csv_line_fn())));
    } else {
        lemma_csv_body_concat(rs.drop_last());
        assert(rs.drop_last().map_values(csv_line_fn()) =~= rs.map_values(
            csv_line_fn(),
        ).drop_last());
        assert(rs.map_values(csv_line_fn()).last() == csv_line_of(fields_of(model(rs.last()))));
    }
}

proof fn lemma_md_body_concat(rs: Seq<OrgRow>)
    ensures
        md_body(rs) == concat_all(rs.map_values(md_line_fn())),
    decreases rs.len(),
{
    if rs.len() == 0 {
        assert(md_body(rs) =~= concat_all(rs.map_values(md_line_fn())));
    } else {
        lemma_md_body_concat(rs.drop_last());
        assert(rs.drop_last().map_values(md_line_fn()) =~= rs.map_values(md_line_fn()).drop_last());
        assert(rs.map_values(md_line_fn()).last() == md_line_of(fields_of(model(rs.last()))));
    }
}

/// Round trip of the two serializers: after their fixed headers, both
/// outputs are the concatenation of one rendering per record, in the same
/// record order, the line at position `i` of either body rendering exactly
/// the seven fields of the record at position `i`, in the same column
/// order — the Markdown line showing each field with its pipes replaced by
/// slashes, as `md_line_of` spells out.
pub proof fn lemma_round_trip(rs: Seq<OrgRow>)
    ensures
        csv_text_of(rs) == csv_line_of(header_fields()) + concat_all(rs.map_values(csv_line_fn())),
        md_text_of(rs) == md_header() + concat_all(rs.map_values(md_line_fn())),
        rs.map_values(csv_line_fn()).len() == rs.len(),
        rs.map_values(md_line_fn()).len() == rs.len(),
        forall|i: int|
            0 <= i < rs.len() ==> #[trigger] rs.map_values(csv_line_fn())[i] == csv_line_of(
                fields_of(model(rs[i])),
            ),
        forall|i: int|
            0 <= i < rs.len() ==> #[trigger] rs.map_values(md_line_fn())[i] == md_line_of(
                fields_of(model(rs[i])),
            ),
{
    lemma_csv_body_concat(rs);
    lemma_md_body_concat(rs);
}

/// With no records at all, both outputs consist of their headers alone and
/// the summary reports zero departments and zero employees.
pub proof fn lemma_empty_outputs(rs: Seq<OrgRow>)
    requires
        rs.len() == 0,
    ensures
        csv_text_of(rs) == csv_line_of(header_fields()),
        md_text_of(rs) == md_header(),
        sum_emps(rs) == 0,
{
    assert(csv_text_of(rs) =~= csv_line_of(header_fields()));
    assert(md_text_of(rs) =~= md_header());
}

/// The summary's contribution of one record: its employee count read as a
/// decimal number, or zero when it does not parse.
pub open spec fn emp_value(r: OrgRow) -> nat {
    match parse_usize_spec(r.emp@) {
        Some(v) => v as nat,
        None => 0,
    }
}

/// The total employee count over a record sequence.
pub open spec fn sum_emps(rs: Seq<OrgRow>) -> nat
    decreases rs.len(),
{
    if rs.len() == 0 {
        0
    } else {
        sum_emps(rs.drop_last()) + emp_value(rs.last())
    }
}

pub proof fn lemma_sum_emps_bound(rs: Seq<OrgRow>)
    ensures
        sum_emps(rs) <= rs.len() * (usize::MAX as nat),
    decreases rs.len(),
{
    if rs.len() > 0 {
        lemma_sum_emps_bound(rs.drop_last());
        assert((rs.len() - 1) * (usize::MAX as nat) + (usize::MAX as nat) == rs.len() * (
        usize::MAX as nat)) by (nonlinear_arith);
    }
}

/// Sums the records' employee counts; a field that is not a decimal number
/// that fits in `usize` contributes zero.
pub fn total_employees(records: &Vec<OrgRow>) -> (t: u128)
    ensures
        t as nat == sum_emps(records@),
{
    let mut t: u128 = 0;
    let mut i: usize = 0;
    proof {
        assert(records@.take(0) =~= Seq::<OrgRow>::empty());
    }
    while i < records.len()
        invariant
            i <= records.len(),
            t as nat == sum_emps(records@.take(i as int)),
        decreases records.len() - i,
    {
        let v: usize = match parse_usize(records[i].emp.as_str()) {
            Some(v) => v,
            None => 0,
        };
        proof {
            assert(records@.take(i + 1).drop_last() =~= records@.take(i as int));
            assert(records@.take(i + 1).last() == records@[i as int]);
            lemma_sum_emps_bound(records@.take(i as int));
            assert(i * (usize::MAX as nat) + (usize::MAX as nat) <= (usize::MAX as nat) * (
            usize::MAX as nat) + (usize::MAX as nat)) by (nonlinear_arith)
                requires
                    0 <= i <= usize::MAX,
            ;
            assert((usize::MAX as nat) * (usize::MAX as nat) + (usize::MAX as nat)
                <= u128::MAX as nat) by (nonlinear_arith)
                requires
                    usize::MAX as nat <= u64::MAX as nat,
            ;
        }
        t = t + (v as u128);
        i += 1;
    }
    proof {
        assert(records@.take(records.len() as int) =~= records@);
    }
    t
}

} // verus!
