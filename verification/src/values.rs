//! Typed values and rows: what the engine stores and emits.

use vstd::prelude::*;

verus! {

/// A single typed column value.
#[derive(Debug, PartialEq, Eq)]
pub enum Value {
    Null,
    Integer(i64),
    Text(String),
}

/// The mathematical model of a [`Value`].
pub enum ValueModel {
    Null,
    Integer(int),
    Text(Seq<char>),
}

pub open spec fn value_model(v: Value) -> ValueModel {
    match v {
        Value::Null => ValueModel::Null,
        Value::Integer(i) => ValueModel::Integer(i as int),
        Value::Text(s) => ValueModel::Text(s@),
    }
}

/// A stored row: a stable integer identity (the primary key / rowid)
/// and the remaining column values in schema order.
#[derive(Debug, PartialEq, Eq)]
pub struct Row {
    pub id: i64,
    pub vals: Vec<Value>,
}

/// The mathematical model of a [`Row`].
pub struct RowModel {
    pub id: int,
    pub vals: Seq<ValueModel>,
}

pub open spec fn vals_model(vs: Seq<Value>) -> Seq<ValueModel> {
    vs.map_values(|v: Value| value_model(v))
}

pub open spec fn row_model(r: Row) -> RowModel {
    RowModel { id: r.id as int, vals: vals_model(r.vals@) }
}

pub open spec fn rows_model(rs: Seq<Row>) -> Seq<RowModel> {
    rs.map_values(|r: Row| row_model(r))
}

pub proof fn lemma_vals_model_update(vs: Seq<Value>, i: int, v: Value)
    requires
        0 <= i < vs.len(),
    ensures
        vals_model(vs.update(i, v)) == vals_model(vs).update(i, value_model(v)),
{
    assert(vals_model(vs.update(i, v)) =~= vals_model(vs).update(i, value_model(v)));
}

pub proof fn lemma_rows_model_push(rs: Seq<Row>, r: Row)
    ensures
        rows_model(rs.push(r)) == rows_model(rs).push(row_model(r)),
{
    assert(rows_model(rs.push(r)) =~= rows_model(rs).push(row_model(r)));
}

pub proof fn lemma_rows_model_update(rs: Seq<Row>, i: int, r: Row)
    requires
        0 <= i < rs.len(),
    ensures
        rows_model(rs.update(i, r)) == rows_model(rs).update(i, row_model(r)),
{
    assert(rows_model(rs.update(i, r)) =~= rows_model(rs).update(i, row_model(r)));
}

pub proof fn lemma_rows_model_remove(rs: Seq<Row>, i: int)
    requires
        0 <= i < rs.len(),
    ensures
        rows_model(rs.remove(i)) == rows_model(rs).remove(i),
{
    assert(rows_model(rs.remove(i)) =~= rows_model(rs).remove(i));
}

impl Value {
    /// An explicit deep copy whose model is provably unchanged.
    pub fn duplicate(&self) -> (r: Value)
        ensures
            value_model(r) == value_model(*self),
    {
        match self {
            Value::Null => Value::Null,
            Value::Integer(i) => Value::Integer(*i),
            Value::Text(s) => Value::Text(s.clone()),
        }
    }
}

impl Row {
    /// An explicit deep copy whose model is provably unchanged.
    pub fn duplicate(&self) -> (r: Row)
        ensures
            row_model(r) == row_model(*self),
    {
        let mut vals: Vec<Value> = Vec::new();
        let mut i: usize = 0;
        while i < self.vals.len()
            invariant
                i <= self.vals@.len(),
                vals@.len() == i,
                forall|j: int|
                    0 <= j < i ==> value_model(vals@[j]) == value_model(self.vals@[j]),
            decreases self.vals@.len() - i,
        {
            vals.push(self.vals[i].duplicate());
            i = i + 1;
        }
        let out = Row { id: self.id, vals };
        proof {
            assert(row_model(out).vals =~= row_model(*self).vals);
            assert(row_model(out) =~= row_model(*self));
        }
        out
    }
}

} // verus!
