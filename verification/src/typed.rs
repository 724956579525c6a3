//! The typed output shape: the caller expects each row to carry an
//! optional integer `pk` and an optional text `message`.
//!
//! A named field that is absent from the row, unreadable, or unparsable
//! under its expected type becomes `None`, and `None` fields are omitted
//! from the JSON object entirely: the compact representation, chosen and
//! documented here once for both entry shapes. Unlike the generic shape,
//! the typed projection never fails: an undecodable cell degrades to an
//! omitted field.

use crate::json::{
    int_digits, records_array_bytes, records_to_json, spec_parse_int, JsonValue, JsonValueModel,
    Record,
};
use crate::json::parse_i32;
use crate::rowset::{categorize, spec_categorize, Cell, CellModel, Column, ColumnModel, ResultSet,
    ResultSetModel, TypeCategory};
use vstd::prelude::*;
use vstd::slice::slice_to_vec;

verus! {

/// The bytes of the field name `pk`.
pub open spec fn pk_field_name() -> Seq<u8> {
    seq![112u8, 107u8]
}

/// The bytes of the field name `message`.
pub open spec fn message_field_name() -> Seq<u8> {
    seq![109u8, 101u8, 115u8, 115u8, 97u8, 103u8, 101u8]
}

/// Build the field name `pk`.
pub fn pk_name_vec() -> (v: Vec<u8>)
    ensures
        v@ == pk_field_name(),
{
    let mut v: Vec<u8> = Vec::new();
    v.push(112);
    v.push(107);
    proof {
        assert(v@ =~= pk_field_name());
    }
    v
}

/// Build the field name `message`.
pub fn message_name_vec() -> (v: Vec<u8>)
    ensures
        v@ == message_field_name(),
{
    let mut v: Vec<u8> = Vec::new();
    v.push(109);
    v.push(101);
    v.push(115);
    v.push(115);
    v.push(97);
    v.push(103);
    v.push(101);
    proof {
        assert(v@ =~= message_field_name());
    }
    v
}

/// Byte-for-byte equality of two byte strings.
pub fn bytes_eq(a: &[u8], b: &[u8]) -> (r: bool)
    ensures
        r == (a@ == b@),
{
    if a.len() != b.len() {
        return false;
    }
    let mut i: usize = 0;
    while i < a.len()
        invariant
            i <= a@.len(),
            a@.len() == b@.len(),
            forall|k: int| 0 <= k < i ==> a@[k] == b@[k],
        decreases a@.len() - i,
    {
        if a[i] != b[i] {
            return false;
        }
        i = i + 1;
    }
    proof {
        assert(a@ =~= b@);
    }
    true
}

/// Index of the first column named `name`, scanning from position `n`.
pub open spec fn find_col_from(cols: Seq<ColumnModel>, name: Seq<u8>, n: int) -> Option<int>
    decreases cols.len() - n,
{
    if n < 0 || n >= cols.len() {
        None
    } else if cols[n].name == name {
        Some(n)
    } else {
        find_col_from(cols, name, n + 1)
    }
}

/// Index of the first column named `name`.
pub open spec fn find_col(cols: Seq<ColumnModel>, name: Seq<u8>) -> Option<int> {
    find_col_from(cols, name, 0)
}

/// Find the first column bearing `name`.
#[verifier::loop_isolation(false)]
pub fn find_column(columns: &Vec<Column>, name: &[u8]) -> (r: Option<usize>)
    ensures
        match r {
            Some(j) => j < columns@.len() && find_col(columns@.map_values(|c: Column| c@), name@)
                == Some(j as int) && columns@.map_values(|c: Column| c@)[j as int].name == name@,
            None => find_col(columns@.map_values(|c: Column| c@), name@) is None,
        },
{
    let ghost cols = columns@.map_values(|c: Column| c@);
    let mut i: usize = 0;
    while i < columns.len()
        invariant
            i <= columns@.len(),
            find_col(cols, name@) == find_col_from(cols, name@, i as int),
        decreases columns@.len() - i,
    {
        if bytes_eq(columns[i].name.as_slice(), name) {
            proof {
                assert(cols[i as int].name == name@);
            }
            return Some(i);
        }
        proof {
            assert(cols[i as int].name != name@);
        }
        i = i + 1;
    }
    None
}

/// One row under the typed shape.
#[derive(Debug)]
pub struct TypedRecord {
    pub pk: Option<i32>,
    pub message: Option<Vec<u8>>,
}

/// Mathematical model of a `TypedRecord`.
pub struct TypedRecordModel {
    pub pk: Option<int>,
    pub message: Option<Seq<u8>>,
}

impl View for TypedRecord {
    type V = TypedRecordModel;

    open spec fn view(&self) -> TypedRecordModel {
        TypedRecordModel {
            pk: match self.pk {
                Some(v) => Some(v as int),
                None => None,
            },
            message: match self.message {
                Some(ref m) => Some(m@),
                None => None,
            },
        }
    }
}

/// The `pk` field of one row: the first `pk` column's cell read as an
/// integer that fits an `i32`; absent, unreadable, unrecognized-type or
/// unparsable cells yield `None`.
pub open spec fn spec_typed_pk(cols: Seq<ColumnModel>, cells: Seq<CellModel>) -> Option<int> {
    match find_col(cols, pk_field_name()) {
        None => None,
        Some(j) => match cells[j] {
            CellModel::Missing => None,
            CellModel::Raw(raw) => match spec_categorize(cols[j].reported_type) {
                TypeCategory::Unrecognized => None,
                _ => match spec_parse_int(raw) {
                    Some(v) => if i32::MIN <= v <= i32::MAX {
                        Some(v)
                    } else {
                        None
                    },
                    None => None,
                },
            },
        },
    }
}

/// The `message` field of one row: the first `message` column's cell as
/// text. An integer-like cell appears in its canonical decimal form; an
/// unrecognized type degrades to the empty string; absent, unreadable or
/// unparsable cells yield `None`.
pub open spec fn spec_typed_message(cols: Seq<ColumnModel>, cells: Seq<CellModel>) -> Option<
    Seq<u8>,
> {
    match find_col(cols, message_field_name()) {
        None => None,
        Some(j) => match cells[j] {
            CellModel::Missing => None,
            CellModel::Raw(raw) => match spec_categorize(cols[j].reported_type) {
                TypeCategory::IntegerLike => match spec_parse_int(raw) {
                    Some(v) => if i32::MIN <= v <= i32::MAX {
                        Some(int_digits(v))
                    } else {
                        None
                    },
                    None => None,
                },
                TypeCategory::TextLike => Some(raw),
                TypeCategory::Unrecognized => Some(Seq::empty()),
            },
        },
    }
}

/// The typed record of one row.
pub open spec fn spec_typed_row(cols: Seq<ColumnModel>, cells: Seq<CellModel>) -> TypedRecordModel {
    TypedRecordModel {
        pk: spec_typed_pk(cols, cells),
        message: spec_typed_message(cols, cells),
    }
}

/// The typed projection of a whole result set: one typed record per row,
/// in row order. It never fails.
pub open spec fn spec_project_typed(rsm: ResultSetModel) -> Seq<TypedRecordModel> {
    Seq::new(rsm.rows.len(), |i: int| spec_typed_row(rsm.columns, rsm.rows[i]))
}

/// Read one cell as the typed `pk` field.
fn typed_pk_of_row(columns: &Vec<Column>, cells: &Vec<Cell>) -> (r: Option<i32>)
    requires
        cells@.len() == columns@.len(),
    ensures
        ({
            let m = spec_typed_pk(
                columns@.map_values(|c: Column| c@),
                cells@.map_values(|c: Cell| c@),
            );
            match r {
                Some(v) => m == Some(v as int),
                None => m is None,
            }
        }),
{
    let ghost cols = columns@.map_values(|c: Column| c@);
    let ghost cellsm = cells@.map_values(|c: Cell| c@);
    let name = pk_name_vec();
    match find_column(columns, name.as_slice()) {
        None => None,
        Some(j) => {
            proof {
                assert(cellsm[j as int] == cells@[j as int]@);
                assert(cols[j as int] == columns@[j as int]@);
            }
            match &cells[j] {
                Cell::Missing => None,
                Cell::Raw(raw) => {
                    match categorize(columns[j].reported_type.as_slice()) {
                        TypeCategory::Unrecognized => None,
                        _ => parse_i32(raw.as_slice()),
                    }
                },
            }
        },
    }
}

/// Read one cell as the typed `message` field.
fn typed_message_of_row(columns: &Vec<Column>, cells: &Vec<Cell>) -> (r: Option<Vec<u8>>)
    requires
        cells@.len() == columns@.len(),
    ensures
        ({
            let m = spec_typed_message(
                columns@.map_values(|c: Column| c@),
                cells@.map_values(|c: Cell| c@),
            );
            match r {
                Some(v) => m == Some(v@),
                None => m is None,
            }
        }),
{
    let ghost cols = columns@.map_values(|c: Column| c@);
    let ghost cellsm = cells@.map_values(|c: Cell| c@);
    let name = message_name_vec();
    match find_column(columns, name.as_slice()) {
        None => None,
        Some(j) => {
            proof {
                assert(cellsm[j as int] == cells@[j as int]@);
                assert(cols[j as int] == columns@[j as int]@);
            }
            match &cells[j] {
                Cell::Missing => None,
                Cell::Raw(raw) => {
                    match categorize(columns[j].reported_type.as_slice()) {
                        TypeCategory::IntegerLike => {
                            match parse_i32(raw.as_slice()) {
                                Some(v) => {
                                    let mut out: Vec<u8> = Vec::new();
                                    crate::json::push_int_digits(&mut out, v as i64);
                                    assert(out@ =~= int_digits(v as int));
                                    Some(out)
                                },
                                None => None,
                            }
                        },
                        TypeCategory::TextLike => Some(slice_to_vec(raw.as_slice())),
                        TypeCategory::Unrecognized => {
                            let empty: Vec<u8> = Vec::new();
                            assert(empty@ =~= Seq::<u8>::empty());
                            Some(empty)
                        },
                    }
                },
            }
        },
    }
}

/// Project a whole result set under the typed shape: exactly one typed
/// record per row, in row order, never an error.
#[verifier::loop_isolation(false)]
pub fn project_typed(rs: &ResultSet) -> (ts: Vec<TypedRecord>)
    requires
        rs@.wf(),
    ensures
        ts@.map_values(|t: TypedRecord| t@) == spec_project_typed(rs@),
        ts@.len() == rs@.rows.len(),
{
    let ghost cols = rs@.columns;
    let mut ts: Vec<TypedRecord> = Vec::new();
    let mut i: usize = 0;
    while i < rs.rows.len()
        invariant
            i <= rs@.rows.len(),
            ts@.len() == i,
            forall|k: int|
                0 <= k < i ==> (#[trigger] ts@[k])@ == spec_typed_row(cols, rs@.rows[k]),
        decreases rs@.rows.len() - i,
    {
        let row = &rs.rows[i];
        proof {
            assert(rs@.rows[i as int] == row@);
            assert(row@.len() == cols.len());
        }
        let pk = typed_pk_of_row(&rs.columns, &row.cells);
        let message = typed_message_of_row(&rs.columns, &row.cells);
        let t = TypedRecord { pk, message };
        proof {
            assert(t@ == spec_typed_row(cols, rs@.rows[i as int]));
        }
        ts.push(t);
        i = i + 1;
    }
    proof {
        assert(ts@.map_values(|t: TypedRecord| t@) =~= spec_project_typed(rs@));
    }
    ts
}

/// The JSON fields of one typed record under the compact representation:
/// a `None` field is omitted entirely, a present field appears under its
/// name, `pk` first.
pub open spec fn typed_record_fields(t: TypedRecordModel) -> Seq<(Seq<u8>, JsonValueModel)> {
    (match t.pk {
        Some(v) => seq![(pk_field_name(), JsonValueModel::Int(v))],
        None => Seq::empty(),
    }) + (match t.message {
        Some(m) => seq![(message_field_name(), JsonValueModel::Str(m))],
        None => Seq::empty(),
    })
}

/// The JSON bytes of a sequence of typed records.
pub open spec fn typed_json_bytes(ts: Seq<TypedRecordModel>) -> Seq<u8> {
    records_array_bytes(ts.map_values(|t: TypedRecordModel| typed_record_fields(t)))
}

/// Serialize typed records as one JSON array, omitting `None` fields.
#[verifier::loop_isolation(false)]
pub fn typed_to_json(ts: &Vec<TypedRecord>) -> (out: Vec<u8>)
    ensures
        out@ == typed_json_bytes(ts@.map_values(|t: TypedRecord| t@)),
{
    let mut records: Vec<Record> = Vec::new();
    let mut i: usize = 0;
    while i < ts.len()
        invariant
            i <= ts@.len(),
            records@.len() == i,
            forall|k: int|
                0 <= k < i ==> (#[trigger] records@[k])@ == typed_record_fields(ts@[k]@),
        decreases ts@.len() - i,
    {
        let t = &ts[i];
        let mut fields: Vec<(Vec<u8>, JsonValue)> = Vec::new();
        match t.pk {
            Some(v) => {
                fields.push((pk_name_vec(), JsonValue::Int(v as i64)));
            },
            None => {},
        }
        match &t.message {
            Some(m) => {
                fields.push((message_name_vec(), JsonValue::Str(slice_to_vec(m.as_slice()))));
            },
            None => {},
        }
        let rec = Record { fields };
        proof {
            assert(rec@ =~= typed_record_fields(t@));
        }
        records.push(rec);
        i = i + 1;
    }
    let out = records_to_json(&records);
    proof {
        assert(crate::json::records_model(records@) =~= ts@.map_values(|t: TypedRecord| t@)
            .map_values(|t: TypedRecordModel| typed_record_fields(t)));
    }
    out
}

} // verus!
