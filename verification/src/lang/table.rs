use vstd::prelude::*;
use vstd::string::*;
use crate::lang::errors::JobError;
use crate::lang::value::{Value, ValueType};

verus! {

/// One column of a schema: an optional name and the type of its cells.
#[derive(Clone, Debug, PartialEq, Eq)]
pub struct ColumnType {
    pub name: Option<String>,
    pub cell_type: ValueType,
}

/// An ordered sequence of values.
#[derive(Clone, Debug, PartialEq, Eq)]
pub struct Row {
    pub cells: Vec<Value>,
}

/// A value handed to a command, with the name it binds to, if any.
#[derive(Clone, Debug, PartialEq, Eq)]
pub struct Argument {
    pub name: Option<String>,
    pub value: Value,
}

/// The views of a sequence of rows.
pub open spec fn row_views(rows: Seq<Row>) -> Seq<Seq<Value>> {
    rows.map_values(|r: Row| r@)
}

/// A row conforms to a schema when it has one cell for each column and each
/// column accepts the type of its cell.
pub open spec fn conforms(row: Seq<Value>, schema: Seq<ColumnType>) -> bool {
    &&& row.len() == schema.len()
    &&& forall|i: int|
        0 <= i < row.len() ==> (#[trigger] schema[i]).cell_type.spec_is_assignable(
            row[i].spec_value_type(),
        )
}

impl ColumnType {
    /// A column with a name.
    pub fn new(name: &str, cell_type: ValueType) -> (column: ColumnType)
        ensures
            column.name.is_some(),
            column.name.unwrap()@ == name@,
            column.cell_type == cell_type,
    {
        ColumnType { name: Some(String::from_str(name)), cell_type }
    }

    /// A column without a name, reached by its position only.
    pub fn unnamed(cell_type: ValueType) -> (column: ColumnType)
        ensures
            column.name.is_none(),
            column.cell_type == cell_type,
    {
        ColumnType { name: None, cell_type }
    }

    /// A second column equal to this one.
    pub fn duplicate(&self) -> (copy: ColumnType)
        ensures
            copy == *self,
    {
        let name = match &self.name {
            Some(n) => Some(n.clone()),
            None => None,
        };
        ColumnType { name, cell_type: self.cell_type }
    }
}

impl View for Row {
    type V = Seq<Value>;

    open spec fn view(&self) -> Seq<Value> {
        self.cells@
    }
}

impl Row {
    /// The row of these cells.
    pub fn new(cells: Vec<Value>) -> (row: Row)
        ensures
            row@ == cells@,
    {
        Row { cells }
    }

    /// A second row with the same cells.
    pub fn duplicate(&self) -> (copy: Row)
        ensures
            copy@ == self@,
    {
        let mut cells: Vec<Value> = Vec::new();
        let mut i: usize = 0;
        while i < self.cells.len()
            invariant
                i <= self.cells.len(),
                cells@ == self.cells@.take(i as int),
            decreases self.cells.len() - i,
        {
            cells.push(self.cells[i].duplicate());
            proof {
                assert(self.cells@.take(i + 1) =~= self.cells@.take(i as int).push(self.cells@[i as int]));
            }
            i += 1;
        }
        proof {
            assert(self.cells@.take(i as int) =~= self.cells@);
        }
        Row { cells }
    }

    /// Checks the row against a schema: `ArityMismatch` where the lengths
    /// differ, else `ColumnTypeMismatch` where some column refuses its cell.
    pub fn validate(&self, schema: &Vec<ColumnType>) -> (r: Result<(), JobError>)
        ensures
            r.is_ok() <==> conforms(self@, schema@),
            r == Err::<(), JobError>(JobError::ArityMismatch) <==> self@.len() != schema@.len(),
            r.is_err() ==> r == Err::<(), JobError>(JobError::ArityMismatch) || r == Err::<(), JobError>(
                JobError::ColumnTypeMismatch,
            ),
    {
        if self.cells.len() != schema.len() {
            return Err(JobError::ArityMismatch);
        }
        let mut i: usize = 0;
        while i < schema.len()
            invariant
                i <= schema.len(),
                self.cells.len() == schema.len(),
                forall|j: int|
                    0 <= j < i ==> (#[trigger] schema@[j]).cell_type.spec_is_assignable(
                        self@[j].spec_value_type(),
                    ),
            decreases schema.len() - i,
        {
            if !schema[i].cell_type.is_assignable(self.cells[i].value_type()) {
                return Err(JobError::ColumnTypeMismatch);
            }
            i += 1;
        }
        Ok(())
    }
}

impl Argument {
    /// An argument that binds by name.
    pub fn named(name: &str, value: Value) -> (argument: Argument)
        ensures
            argument.name.is_some(),
            argument.name.unwrap()@ == name@,
            argument.value == value,
    {
        Argument { name: Some(String::from_str(name)), value }
    }

    /// An argument that binds by its position.
    pub fn unnamed(value: Value) -> (argument: Argument)
        ensures
            argument.name.is_none(),
            argument.value == value,
    {
        Argument { name: None, value }
    }
}

/// A second schema equal to the first, column by column.
pub fn duplicate_schema(schema: &Vec<ColumnType>) -> (copy: Vec<ColumnType>)
    ensures
        copy@ == schema@,
{
    let mut copy: Vec<ColumnType> = Vec::new();
    let mut i: usize = 0;
    while i < schema.len()
        invariant
            i <= schema.len(),
            copy@ == schema@.take(i as int),
        decreases schema.len() - i,
    {
        copy.push(schema[i].duplicate());
        proof {
            assert(schema@.take(i + 1) =~= schema@.take(i as int).push(schema@[i as int]));
        }
        i += 1;
    }
    proof {
        assert(schema@.take(i as int) =~= schema@);
    }
    copy
}

} // verus!
