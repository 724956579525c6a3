//! The dynamic result projector: convert a result set whose column count,
//! names and types are unknown until execution into JSON-safe records,
//! without losing type fidelity.
//!
//! Two output shapes are supported. The generic shape emits every readable
//! column of every row as a field, valued by the column's reported type
//! category: integer-like cells become JSON numbers (a cell that does not
//! parse as an integer is a hard error for the whole projection, never a
//! silent coercion), text-like cells become JSON strings, and cells of an
//! unrecognized type degrade per the configured policy. The typed shape
//! extracts the fixed optional `pk`/`message` pair, where an absent,
//! unreadable or unparsable field becomes `None` and `None` fields are
//! omitted from the JSON object entirely (the compact representation).

use crate::json::{records_model, spec_parse_int, value_bytes, JsonValue, JsonValueModel, Record};
use crate::json::{escape_bytes, records_array_bytes, string_bytes, unescape_bytes};
use crate::json::{lemma_int_digits_parse, lemma_unescape_escape, parse_i32};
use crate::rowset::{spec_categorize, Cell, CellModel, Column, ColumnModel, ResultSet,
    ResultSetModel, Row, TypeCategory};
use crate::rowset::categorize;
use vstd::prelude::*;
use vstd::slice::slice_to_vec;

verus! {

/// Policy for a cell whose reported type is outside the recognized set:
/// degrade to the empty string, or to JSON null.
#[derive(Clone, Copy, PartialEq, Eq, Structural, Debug)]
pub enum UnknownTypePolicy {
    EmptyText,
    NullValue,
}

/// The one hard failure of the generic projection: an integer-like cell in
/// the named row whose raw bytes do not denote an integer that fits.
#[derive(Clone, Copy, PartialEq, Eq, Structural, Debug)]
pub struct ProjectError {
    pub row: usize,
}

/// The JSON-safe value of one readable cell under its column's category,
/// or `None` for the hard integer-decode failure.
pub open spec fn spec_cell_value(
    cat: TypeCategory,
    raw: Seq<u8>,
    policy: UnknownTypePolicy,
) -> Option<JsonValueModel> {
    match cat {
        TypeCategory::IntegerLike => match spec_parse_int(raw) {
            Some(v) => if i32::MIN <= v <= i32::MAX {
                Some(JsonValueModel::Int(v))
            } else {
                None
            },
            None => None,
        },
        TypeCategory::TextLike => Some(JsonValueModel::Str(raw)),
        TypeCategory::Unrecognized => match policy {
            UnknownTypePolicy::EmptyText => Some(JsonValueModel::Str(Seq::empty())),
            UnknownTypePolicy::NullValue => Some(JsonValueModel::Null),
        },
    }
}

/// Fields of one row's generic record, restricted to the first `n`
/// columns: readable cells appear in column order, unreadable cells are
/// absent, and a failed integer decode poisons the whole row.
pub open spec fn spec_row_fields_upto(
    cols: Seq<ColumnModel>,
    cells: Seq<CellModel>,
    policy: UnknownTypePolicy,
    n: int,
) -> Option<Seq<(Seq<u8>, JsonValueModel)>>
    decreases n,
{
    if n <= 0 {
        Some(Seq::empty())
    } else {
        match spec_row_fields_upto(cols, cells, policy, n - 1) {
            None => None,
            Some(fs) => match cells[n - 1] {
                CellModel::Missing => Some(fs),
                CellModel::Raw(raw) => match spec_cell_value(
                    spec_categorize(cols[n - 1].reported_type),
                    raw,
                    policy,
                ) {
                    None => None,
                    Some(v) => Some(fs.push((cols[n - 1].name, v))),
                },
            },
        }
    }
}

/// Fields of one row's generic record over all columns.
pub open spec fn spec_row_fields(
    cols: Seq<ColumnModel>,
    cells: Seq<CellModel>,
    policy: UnknownTypePolicy,
) -> Option<Seq<(Seq<u8>, JsonValueModel)>> {
    spec_row_fields_upto(cols, cells, policy, cols.len() as int)
}

/// Generic records of the first `n` rows, or `None` once a row fails.
pub open spec fn spec_project_upto(
    cols: Seq<ColumnModel>,
    rows: Seq<Seq<CellModel>>,
    policy: UnknownTypePolicy,
    n: int,
) -> Option<Seq<Seq<(Seq<u8>, JsonValueModel)>>>
    decreases n,
{
    if n <= 0 {
        Some(Seq::empty())
    } else {
        match spec_project_upto(cols, rows, policy, n - 1) {
            None => None,
            Some(rs) => match spec_row_fields(cols, rows[n - 1], policy) {
                None => None,
                Some(fs) => Some(rs.push(fs)),
            },
        }
    }
}

/// The generic projection of a whole result set: one record per row, in
/// row order.
pub open spec fn spec_project(
    rsm: ResultSetModel,
    policy: UnknownTypePolicy,
) -> Option<Seq<Seq<(Seq<u8>, JsonValueModel)>>> {
    spec_project_upto(rsm.columns, rsm.rows, policy, rsm.rows.len() as int)
}

/// Project one row into its generic record.
#[verifier::loop_isolation(false)]
fn project_row(columns: &Vec<Column>, row: &Row, policy: UnknownTypePolicy) -> (r: Option<Record>)
    requires
        row@.len() == columns@.len(),
    ensures
        match r {
            Some(rec) => spec_row_fields(columns@.map_values(|c: Column| c@), row@, policy)
                == Some(rec@),
            None => spec_row_fields(columns@.map_values(|c: Column| c@), row@, policy) is None,
        },
{
    let ghost cols = columns@.map_values(|c: Column| c@);
    let mut fields: Vec<(Vec<u8>, JsonValue)> = Vec::new();
    let mut j: usize = 0;
    assert(fields@.map_values(|f: (Vec<u8>, JsonValue)| (f.0@, f.1@)) =~= Seq::empty());
    while j < columns.len()
        invariant
            j <= columns@.len(),
            spec_row_fields_upto(cols, row@, policy, j as int) == Some(
                fields@.map_values(|f: (Vec<u8>, JsonValue)| (f.0@, f.1@)),
            ),
        decreases columns@.len() - j,
    {
        let ghost fs_before = fields@.map_values(|f: (Vec<u8>, JsonValue)| (f.0@, f.1@));
        let col = &columns[j];
        proof {
            assert(cols[j as int] == col@);
            assert(row@[j as int] == row.cells@[j as int]@);
        }
        match &row.cells[j] {
            Cell::Missing => {},
            Cell::Raw(raw) => {
                let cat = categorize(col.reported_type.as_slice());
                match cat {
                    TypeCategory::IntegerLike => {
                        match parse_i32(raw.as_slice()) {
                            Some(v) => {
                                fields.push((slice_to_vec(col.name.as_slice()), JsonValue::Int(
                                    v as i64,
                                )));
                            },
                            None => {
                                assert(spec_row_fields_upto(cols, row@, policy, j + 1) is None);
                                assert(spec_row_fields(cols, row@, policy) is None) by {
                                    lemma_row_fields_none_persists(cols, row@, policy, j + 1,
                                        cols.len() as int);
                                }
                                return None;
                            },
                        }
                    },
                    TypeCategory::TextLike => {
                        fields.push((slice_to_vec(col.name.as_slice()), JsonValue::Str(
                            slice_to_vec(raw.as_slice()),
                        )));
                    },
                    TypeCategory::Unrecognized => {
                        match policy {
                            UnknownTypePolicy::EmptyText => {
                                fields.push((slice_to_vec(col.name.as_slice()), JsonValue::Str(
                                    Vec::new(),
                                )));
                            },
                            UnknownTypePolicy::NullValue => {
                                fields.push((slice_to_vec(col.name.as_slice()), JsonValue::Null));
                            },
                        }
                    },
                }
            },
        }
        proof {
            let fs_after = fields@.map_values(|f: (Vec<u8>, JsonValue)| (f.0@, f.1@));
            if fs_after.len() == fs_before.len() + 1 {
                assert(fs_after =~= fs_before.push(fs_after.last()));
            } else {
                assert(fs_after =~= fs_before);
            }
            assert(spec_row_fields_upto(cols, row@, policy, j + 1) == Some(fs_after));
        }
        j = j + 1;
    }
    Some(Record { fields })
}

/// Once a row prefix fails, the whole row fails.
proof fn lemma_row_fields_none_persists(
    cols: Seq<ColumnModel>,
    cells: Seq<CellModel>,
    policy: UnknownTypePolicy,
    n: int,
    m: int,
)
    requires
        0 <= n <= m,
        spec_row_fields_upto(cols, cells, policy, n) is None,
    ensures
        spec_row_fields_upto(cols, cells, policy, m) is None,
    decreases m - n,
{
    if n < m {
        lemma_row_fields_none_persists(cols, cells, policy, n, m - 1);
    }
}

/// Project a whole result set into its generic records: exactly one record
/// per row, rows in backend order, or the first row whose integer-like
/// cell failed to decode.
#[verifier::loop_isolation(false)]
pub fn project(rs: &ResultSet, policy: UnknownTypePolicy) -> (r: Result<Vec<Record>, ProjectError>)
    requires
        rs@.wf(),
    ensures
        r is Ok <==> spec_project(rs@, policy) is Some,
        r is Ok ==> spec_project(rs@, policy) == Some(records_model((r->Ok_0)@)),
        r is Ok ==> (r->Ok_0)@.len() == rs@.rows.len(),
        r is Err ==> {
            let i = (r->Err_0).row as int;
            &&& 0 <= i < rs@.rows.len()
            &&& spec_row_fields(rs@.columns, rs@.rows[i], policy) is None
            &&& forall|j: int|
                0 <= j < i ==> (#[trigger] spec_row_fields(rs@.columns, rs@.rows[j], policy))
                    is Some
        },
{
    let ghost cols = rs@.columns;
    let mut records: Vec<Record> = Vec::new();
    let mut i: usize = 0;
    assert(records_model(records@) =~= Seq::empty());
    while i < rs.rows.len()
        invariant
            i <= rs@.rows.len(),
            records@.len() == i,
            spec_project_upto(cols, rs@.rows, policy, i as int) == Some(records_model(records@)),
            forall|j: int|
                0 <= j < i ==> (#[trigger] spec_row_fields(cols, rs@.rows[j], policy)) is Some,
        decreases rs@.rows.len() - i,
    {
        let ghost before = records_model(records@);
        proof {
            assert(rs@.rows[i as int] == rs.rows@[i as int]@);
            assert(rs@.rows[i as int].len() == cols.len());
        }
        match project_row(&rs.columns, &rs.rows[i], policy) {
            Some(rec) => {
                records.push(rec);
                proof {
                    assert(records_model(records@) =~= before.push(rec@));
                    assert(spec_project_upto(cols, rs@.rows, policy, i + 1) == Some(
                        records_model(records@),
                    ));
                }
            },
            None => {
                proof {
                    assert(spec_project_upto(cols, rs@.rows, policy, i + 1) is None);
                    lemma_project_none_persists(cols, rs@.rows, policy, i + 1,
                        rs@.rows.len() as int);
                }
                return Err(ProjectError { row: i });
            },
        }
        i = i + 1;
    }
    Ok(records)
}

/// Once a row has failed, projecting any longer prefix fails too.
proof fn lemma_project_none_persists(
    cols: Seq<ColumnModel>,
    rows: Seq<Seq<CellModel>>,
    policy: UnknownTypePolicy,
    n: int,
    m: int,
)
    requires
        0 <= n <= m,
        spec_project_upto(cols, rows, policy, n) is None,
    ensures
        spec_project_upto(cols, rows, policy, m) is None,
    decreases m - n,
{
    if n < m {
        lemma_project_none_persists(cols, rows, policy, n, m - 1);
    }
}

// ------------------------------------------------------------------
// Laws of the generic projection.
// ------------------------------------------------------------------

/// A successful projection of `n` rows yields exactly `n` records, one per
/// row in order, each equal to its row's own fields.
pub proof fn lemma_project_upto_index(
    cols: Seq<ColumnModel>,
    rows: Seq<Seq<CellModel>>,
    policy: UnknownTypePolicy,
    n: int,
    i: int,
)
    requires
        0 <= i < n <= rows.len(),
        spec_project_upto(cols, rows, policy, n) is Some,
    ensures
        spec_project_upto(cols, rows, policy, n).unwrap().len() == n,
        spec_row_fields(cols, rows[i], policy) is Some,
        spec_project_upto(cols, rows, policy, n).unwrap()[i] == spec_row_fields(
            cols,
            rows[i],
            policy,
        ).unwrap(),
    decreases n,
{
    if i < n - 1 {
        lemma_project_upto_index(cols, rows, policy, n - 1, i);
    } else {
        if n - 1 > 0 {
            lemma_project_upto_len(cols, rows, policy, n - 1);
        }
    }
}

/// A successful projection of `n` rows has exactly `n` records.
pub proof fn lemma_project_upto_len(
    cols: Seq<ColumnModel>,
    rows: Seq<Seq<CellModel>>,
    policy: UnknownTypePolicy,
    n: int,
)
    requires
        0 <= n,
        spec_project_upto(cols, rows, policy, n) is Some,
    ensures
        spec_project_upto(cols, rows, policy, n).unwrap().len() == n,
    decreases n,
{
    if n > 0 {
        lemma_project_upto_len(cols, rows, policy, n - 1);
    }
}

/// In a row with no unreadable cell, the record iterates every column in
/// the row's declared order: field `j` carries column `j`'s name and the
/// JSON value of cell `j` under that column's category.
pub proof fn lemma_row_fields_full(
    cols: Seq<ColumnModel>,
    cells: Seq<CellModel>,
    policy: UnknownTypePolicy,
    n: int,
)
    requires
        0 <= n <= cols.len(),
        forall|j: int| 0 <= j < n ==> !((#[trigger] cells[j]) is Missing),
        spec_row_fields_upto(cols, cells, policy, n) is Some,
    ensures
        ({
            let fs = spec_row_fields_upto(cols, cells, policy, n).unwrap();
            &&& fs.len() == n
            &&& forall|j: int|
                0 <= j < n ==> (#[trigger] fs[j]).0 == cols[j].name && Some(fs[j].1)
                    == spec_cell_value(spec_categorize(cols[j].reported_type), cells[j]->Raw_0,
                    policy)
        }),
    decreases n,
{
    if n > 0 {
        lemma_row_fields_full(cols, cells, policy, n - 1);
    }
}

/// Round-trip law: in a result set whose columns are all integer-like or
/// text-like and whose cells are all readable, every projected field keeps
/// the column's name, and its JSON rendering decodes back to the original
/// logical value: an integer-like cell's number parses back to the very
/// integer the raw bytes denoted, and a text-like cell's escaped string
/// body unescapes to the raw bytes themselves.
pub proof fn lemma_projection_round_trip(
    rsm: ResultSetModel,
    policy: UnknownTypePolicy,
    i: int,
    j: int,
)
    requires
        rsm.wf(),
        spec_project(rsm, policy) is Some,
        0 <= i < rsm.rows.len(),
        0 <= j < rsm.columns.len(),
        forall|a: int, b: int|
            0 <= a < rsm.rows.len() && 0 <= b < rsm.columns.len() ==> !((
            #[trigger] rsm.rows[a][b]) is Missing),
        forall|b: int|
            0 <= b < rsm.columns.len() ==> spec_categorize(
                (#[trigger] rsm.columns[b]).reported_type,
            ) != TypeCategory::Unrecognized,
    ensures
        ({
            let rec = spec_project(rsm, policy).unwrap()[i];
            let raw = rsm.rows[i][j]->Raw_0;
            &&& rec.len() == rsm.columns.len()
            &&& rec[j].0 == rsm.columns[j].name
            &&& spec_categorize(rsm.columns[j].reported_type) == TypeCategory::IntegerLike
                ==> rec[j].1 is Int && spec_parse_int(raw) == Some(rec[j].1->Int_0)
                && spec_parse_int(value_bytes(rec[j].1)) == Some(rec[j].1->Int_0)
            &&& spec_categorize(rsm.columns[j].reported_type) == TypeCategory::TextLike
                ==> rec[j].1 == JsonValueModel::Str(raw) && value_bytes(rec[j].1) == string_bytes(
                raw,
            ) && unescape_bytes(escape_bytes(raw)) == Some(raw)
        }),
{
    lemma_project_upto_index(rsm.columns, rsm.rows, policy, rsm.rows.len() as int, i);
    lemma_row_fields_full(rsm.columns, rsm.rows[i], policy, rsm.columns.len() as int);
    let rec = spec_project(rsm, policy).unwrap()[i];
    let raw = rsm.rows[i][j]->Raw_0;
    if spec_categorize(rsm.columns[j].reported_type) == TypeCategory::IntegerLike {
        lemma_int_digits_parse(rec[j].1->Int_0);
    }
    if spec_categorize(rsm.columns[j].reported_type) == TypeCategory::TextLike {
        lemma_unescape_escape(raw);
    }
}

/// Idempotence law: the JSON bytes of a projection are a function of the
/// result set model and the policy alone, so projecting the same result
/// set twice yields identical bytes.
pub proof fn lemma_projection_deterministic(
    rsm: ResultSetModel,
    policy: UnknownTypePolicy,
    a: Seq<u8>,
    b: Seq<u8>,
)
    requires
        spec_project(rsm, policy) is Some,
        a == records_array_bytes(spec_project(rsm, policy).unwrap()),
        b == records_array_bytes(spec_project(rsm, policy).unwrap()),
    ensures
        a == b,
{
}

} // verus!
