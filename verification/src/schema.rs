//! The slice of the schema layer the engine consumes: typed columns of a
//! table, and the composite field id that keys on-disk data by (series,
//! column).

use vstd::prelude::*;

verus! {

/// The primitive type of a field column. The tag is schema metadata only;
/// no floating-point value ever enters the engine core.
#[derive(Debug, Clone, Copy, PartialEq, Eq, Structural)]
pub enum ValueType {
    Integer,
    Unsigned,
    Boolean,
    Str,
    Float,
}

/// What role a column plays in a table.
#[derive(Debug, Clone, Copy, PartialEq, Eq, Structural)]
pub enum ColumnType {
    Time,
    Tag,
    Field(ValueType),
}

/// One column of a table schema.
#[derive(Debug)]
pub struct TableColumn {
    pub id: u32,
    pub name: String,
    pub column_type: ColumnType,
}

/// The mathematical value of a `TableColumn`.
pub ghost struct TableColumnV {
    pub id: u32,
    pub name: Seq<char>,
    pub column_type: ColumnType,
}

impl View for TableColumn {
    type V = TableColumnV;

    open spec fn view(&self) -> TableColumnV {
        TableColumnV { id: self.id, name: self.name@, column_type: self.column_type }
    }
}

impl Clone for TableColumn {
    /// A clone carries the same mathematical value as the original.
    fn clone(&self) -> (r: Self)
        ensures
            r@ == self@,
    {
        Self { id: self.id, name: self.name.clone(), column_type: self.column_type }
    }
}

impl TableColumn {
    pub fn new(id: u32, name: String, column_type: ColumnType) -> (r: Self)
        ensures
            r@ == (TableColumnV { id, name: name@, column_type }),
    {
        Self { id, name, column_type }
    }
}

/// The values of a column vector.
pub open spec fn columns_view(cols: Seq<TableColumn>) -> Seq<TableColumnV> {
    cols.map_values(|c: TableColumn| c@)
}

/// A table schema as the engine sees it.
#[derive(Debug)]
pub struct TskvTableSchema {
    pub tenant: String,
    pub db: String,
    pub name: String,
    pub schema_id: u32,
    pub columns: Vec<TableColumn>,
}

/// The mathematical value of a `TskvTableSchema`.
pub ghost struct TskvTableSchemaV {
    pub tenant: Seq<char>,
    pub db: Seq<char>,
    pub name: Seq<char>,
    pub schema_id: u32,
    pub columns: Seq<TableColumnV>,
}

impl View for TskvTableSchema {
    type V = TskvTableSchemaV;

    open spec fn view(&self) -> TskvTableSchemaV {
        TskvTableSchemaV {
            tenant: self.tenant@,
            db: self.db@,
            name: self.name@,
            schema_id: self.schema_id,
            columns: columns_view(self.columns@),
        }
    }
}

impl Clone for TskvTableSchema {
    /// A clone carries the same mathematical value as the original.
    fn clone(&self) -> (r: Self)
        ensures
            r@ == self@,
    {
        let mut columns: Vec<TableColumn> = Vec::new();
        let mut i: usize = 0;
        while i < self.columns.len()
            invariant
                i <= self.columns@.len(),
                columns_view(columns@) =~= columns_view(self.columns@).take(i as int),
            decreases self.columns@.len() - i,
        {
            proof {
                assert(columns_view(self.columns@)[i as int] == self.columns@[i as int]@);
            }
            let ghost cb = columns@;
            let c = self.columns[i].clone();
            let ghost cv = c@;
            columns.push(c);
            proof {
                assert(columns_view(columns@) =~= columns_view(cb).push(cv));
                assert(columns_view(columns@) =~= columns_view(self.columns@).take(i + 1));
            }
            i = i + 1;
        }
        proof {
            assert(columns_view(columns@) =~= columns_view(self.columns@));
        }
        Self {
            tenant: self.tenant.clone(),
            db: self.db.clone(),
            name: self.name.clone(),
            schema_id: self.schema_id,
            columns,
        }
    }
}

impl TskvTableSchema {
    pub fn new(tenant: String, db: String, name: String, columns: Vec<TableColumn>) -> (r: Self)
        ensures
            r@ == (TskvTableSchemaV {
                tenant: tenant@,
                db: db@,
                name: name@,
                schema_id: 0,
                columns: columns_view(columns@),
            }),
    {
        Self { tenant, db, name, schema_id: 0, columns }
    }

    /// The index of the column with this name, if any.
    pub fn column_index(&self, name: &str) -> (r: Option<usize>)
        ensures
            match r {
                Some(i) => 0 <= i < self@.columns.len() && self@.columns[i as int].name == name@
                    && forall|j: int| 0 <= j < i ==> (#[trigger] self@.columns[j]).name != name@,
                None => forall|j: int|
                    0 <= j < self@.columns.len() ==> (#[trigger] self@.columns[j]).name != name@,
            },
    {
        let name_owned = name.to_owned();
        let mut i: usize = 0;
        while i < self.columns.len()
            invariant
                i <= self.columns@.len(),
                name_owned@ == name@,
                forall|j: int|
                    0 <= j < i ==> (#[trigger] columns_view(self.columns@)[j]).name != name@,
            decreases self.columns@.len() - i,
        {
            proof {
                assert(columns_view(self.columns@)[i as int] == self.columns@[i as int]@);
            }
            if self.columns[i].name == name_owned {
                return Some(i);
            }
            i = i + 1;
        }
        None
    }

    /// The column with this name, if any.
    pub fn column(&self, name: &str) -> (r: Option<&TableColumn>)
        ensures
            match r {
                Some(c) => exists|i: int|
                    0 <= i < self@.columns.len() && (#[trigger] self@.columns[i]) == c@
                        && c@.name == name@,
                None => forall|j: int|
                    0 <= j < self@.columns.len() ==> (#[trigger] self@.columns[j]).name != name@,
            },
    {
        match self.column_index(name) {
            Some(i) => {
                proof {
                    assert(columns_view(self.columns@)[i as int] == self.columns@[i as int]@);
                }
                Some(&self.columns[i])
            },
            None => None,
        }
    }
}

/// The composite field id of a column in a series:
/// the series id in the upper half, the column id in the lower.
pub open spec fn spec_field_id(column_id: u32, series_id: u32) -> u64 {
    (series_id * 0x1_0000_0000 + column_id) as u64
}

/// Builds the composite field id of (series, column).
pub fn unite_field_id(column_id: u32, series_id: u32) -> (r: u64)
    ensures
        r == spec_field_id(column_id, series_id),
{
    (series_id as u64) * 0x1_0000_0000 + (column_id as u64)
}

} // verus!
