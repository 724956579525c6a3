//! The data model of one query execution's result: ordered column
//! descriptors paired with ordered rows of raw cells, plus the
//! categorization of a column's runtime-reported type name.

use vstd::prelude::*;

verus! {

/// The closed set of recognized backend type categories. A reported type
/// name outside the recognized set falls into `Unrecognized`, whose cells
/// degrade losslessly per the configured policy.
#[derive(Clone, Copy, PartialEq, Eq, Structural, Debug)]
pub enum TypeCategory {
    IntegerLike,
    TextLike,
    Unrecognized,
}

/// Byte values of the ASCII letters in the recognized type names.
pub const BYTE_E: u8 = 69;

pub const BYTE_I: u8 = 73;

pub const BYTE_N: u8 = 78;

pub const BYTE_T: u8 = 84;

pub const BYTE_X: u8 = 88;

/// The reported type name that marks a column as integer-like.
pub open spec fn int_reported_type() -> Seq<u8> {
    seq![BYTE_I, BYTE_N, BYTE_T]
}

/// The reported type name that marks a column as text-like.
pub open spec fn text_reported_type() -> Seq<u8> {
    seq![BYTE_T, BYTE_E, BYTE_X, BYTE_T]
}

/// Category of a runtime-reported column type name.
pub open spec fn spec_categorize(name: Seq<u8>) -> TypeCategory {
    if name == int_reported_type() {
        TypeCategory::IntegerLike
    } else if name == text_reported_type() {
        TypeCategory::TextLike
    } else {
        TypeCategory::Unrecognized
    }
}

/// Decide the decode strategy for a column from its reported type name.
pub fn categorize(name: &[u8]) -> (c: TypeCategory)
    ensures
        c == spec_categorize(name@),
{
    if name.len() == 3 && name[0] == BYTE_I && name[1] == BYTE_N && name[2] == BYTE_T {
        proof {
            assert(name@ =~= int_reported_type());
        }
        TypeCategory::IntegerLike
    } else if name.len() == 4 && name[0] == BYTE_T && name[1] == BYTE_E && name[2] == BYTE_X
        && name[3] == BYTE_T {
        proof {
            assert(name@ =~= text_reported_type());
        }
        TypeCategory::TextLike
    } else {
        proof {
            assert(name@ != int_reported_type());
            assert(name@ != text_reported_type());
        }
        TypeCategory::Unrecognized
    }
}

/// One column descriptor: its name and its runtime-reported type name.
pub struct Column {
    pub name: Vec<u8>,
    pub reported_type: Vec<u8>,
}

/// Mathematical model of a `Column`.
pub struct ColumnModel {
    pub name: Seq<u8>,
    pub reported_type: Seq<u8>,
}

impl View for Column {
    type V = ColumnModel;

    open spec fn view(&self) -> ColumnModel {
        ColumnModel { name: self.name@, reported_type: self.reported_type@ }
    }
}

/// One raw cell: either unreadable under any typed accessor (`Missing`),
/// or the undecoded bytes the driver reports for it.
pub enum Cell {
    Missing,
    Raw(Vec<u8>),
}

/// Mathematical model of a `Cell`.
pub enum CellModel {
    Missing,
    Raw(Seq<u8>),
}

impl View for Cell {
    type V = CellModel;

    open spec fn view(&self) -> CellModel {
        match self {
            Cell::Missing => CellModel::Missing,
            Cell::Raw(bytes) => CellModel::Raw(bytes@),
        }
    }
}

/// One row: raw cells aligned positionally with the column descriptors.
pub struct Row {
    pub cells: Vec<Cell>,
}

impl View for Row {
    type V = Seq<CellModel>;

    open spec fn view(&self) -> Seq<CellModel> {
        self.cells@.map_values(|c: Cell| c@)
    }
}

/// The product of one query execution: ordered columns and ordered rows.
pub struct ResultSet {
    pub columns: Vec<Column>,
    pub rows: Vec<Row>,
}

/// Mathematical model of a `ResultSet`.
pub struct ResultSetModel {
    pub columns: Seq<ColumnModel>,
    pub rows: Seq<Seq<CellModel>>,
}

impl View for ResultSet {
    type V = ResultSetModel;

    open spec fn view(&self) -> ResultSetModel {
        ResultSetModel {
            columns: self.columns@.map_values(|c: Column| c@),
            rows: self.rows@.map_values(|r: Row| r@),
        }
    }
}

impl ResultSetModel {
    /// Every row has exactly one cell per declared column.
    pub open spec fn wf(self) -> bool {
        forall|i: int| 0 <= i < self.rows.len() ==> (#[trigger] self.rows[i]).len()
            == self.columns.len()
    }
}

} // verus!
