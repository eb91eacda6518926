//! The index-creation descriptor and its canonical SQL rendering:
//! `CREATE INDEX <index_name> ON <table_name> (<col1> <order1>, ...)`.
//! The rendering is a pure projection of the descriptor; parsing it
//! back is out of scope. The wrapper forwards to the descriptor it
//! holds by explicit accessors: composition, not inheritance.

use vstd::prelude::*;

verus! {

/// The sort order of one indexed column.
#[derive(Debug, Clone, Copy, PartialEq, Eq, Hash, Structural)]
pub enum SortOrder {
    Asc,
    Desc,
}

/// The canonical text of a sort order.
pub open spec fn order_text(o: SortOrder) -> Seq<char> {
    match o {
        SortOrder::Asc => "ASC"@,
        SortOrder::Desc => "DESC"@,
    }
}

impl SortOrder {
    pub fn as_sql(&self) -> (r: &'static str)
        ensures
            r@ == order_text(*self),
    {
        match self {
            SortOrder::Asc => "ASC",
            SortOrder::Desc => "DESC",
        }
    }
}

/// A structural index descriptor: index name, target table name, and
/// the ordered list of (column name, sort order) pairs.
#[derive(Debug, Clone, PartialEq, Eq, Hash)]
pub struct Index {
    pub index_name: String,
    pub table_name: String,
    pub columns: Vec<(String, SortOrder)>,
}

/// The canonical text of one column entry: `<name> <order>`.
pub open spec fn column_text(c: (Seq<char>, SortOrder)) -> Seq<char> {
    c.0 + " "@ + order_text(c.1)
}

/// The models of the column entries.
pub open spec fn columns_model(cols: Seq<(String, SortOrder)>) -> Seq<(Seq<char>, SortOrder)> {
    cols.map_values(|c: (String, SortOrder)| (c.0@, c.1))
}

/// The canonical text of the column list, entries joined by `, `.
pub open spec fn columns_text(cols: Seq<(Seq<char>, SortOrder)>) -> Seq<char>
    decreases cols.len(),
{
    if cols.len() == 0 {
        Seq::empty()
    } else if cols.len() == 1 {
        column_text(cols[0])
    } else {
        column_text(cols[0]) + ", "@ + columns_text(cols.skip(1))
    }
}

/// The canonical text of the whole statement.
pub open spec fn create_index_text(ix: Index) -> Seq<char> {
    "CREATE INDEX "@ + ix.index_name@ + " ON "@ + ix.table_name@ + " ("@ + columns_text(
        columns_model(ix.columns@),
    ) + ")"@
}

/// Joining one more entry appends a separator exactly when entries
/// came before it.
pub proof fn lemma_columns_text_snoc(cols: Seq<(Seq<char>, SortOrder)>, i: int)
    requires
        0 <= i < cols.len(),
    ensures
        columns_text(cols.take(i + 1)) == if i == 0 {
            column_text(cols[0])
        } else {
            columns_text(cols.take(i)) + ", "@ + columns_text(seq![cols[i]])
        },
    decreases i,
{
    let pre = cols.take(i + 1);
    if i == 0 {
        assert(pre.len() == 1);
        assert(pre[0] == cols[0]);
    } else {
        assert(pre.len() >= 2);
        assert(pre[0] == cols[0]);
        assert(pre.skip(1) =~= cols.skip(1).take(i));
        lemma_columns_text_snoc(cols.skip(1), i - 1);
        assert(cols.take(i)[0] == cols[0]);
        if i == 1 {
            assert(cols.take(1).len() == 1);
            assert(cols.take(1)[0] == cols[0]);
            assert(cols.skip(1).take(1) =~= seq![cols[1]]);
            assert(columns_text(cols.skip(1).take(1)) == column_text(cols[1]));
            assert(seq![cols[1]].len() == 1);
            assert(columns_text(seq![cols[1]]) == column_text(cols[1]));
        } else {
            assert(cols.take(i).len() >= 2);
            assert(cols.take(i).skip(1) =~= cols.skip(1).take(i - 1));
            assert(cols.skip(1)[i - 1] == cols[i]);
            assert(seq![cols.skip(1)[i - 1]] =~= seq![cols[i]]);
        }
    }
}

/// The statement wrapper around an index descriptor. It holds the
/// descriptor and forwards access to it.
#[derive(Debug, Clone, PartialEq, Eq, Hash)]
pub struct CreateIndex {
    pub index: Index,
}

impl CreateIndex {
    pub fn new(index: Index) -> (r: CreateIndex)
        ensures
            r.index == index,
    {
        CreateIndex { index }
    }

    /// Forwarding accessor to the wrapped descriptor.
    pub fn index(&self) -> (r: &Index)
        ensures
            *r == self.index,
    {
        &self.index
    }

    /// Replace the wrapped descriptor.
    pub fn set_index(&mut self, index: Index)
        ensures
            final(self).index == index,
    {
        self.index = index;
    }

    /// Render the canonical `CREATE INDEX` text of the descriptor.
    pub fn to_sql(&self) -> (s: String)
        ensures
            s@ == create_index_text(self.index),
    {
        let ghost cm = columns_model(self.index.columns@);
        let mut s = String::from_str("CREATE INDEX ");
        s.append(self.index.index_name.as_str());
        s.append(" ON ");
        s.append(self.index.table_name.as_str());
        s.append(" (");
        let ghost header = s@;
        proof {
            assert(columns_text(cm.take(0)) =~= Seq::<char>::empty());
            assert(s@ =~= header + columns_text(cm.take(0)));
        }
        let mut i: usize = 0;
        while i < self.index.columns.len()
            invariant
                i <= self.index.columns@.len(),
                cm == columns_model(self.index.columns@),
                cm.len() == self.index.columns@.len(),
                s@ == header + columns_text(cm.take(i as int)),
            decreases self.index.columns@.len() - i,
        {
            if i > 0 {
                s.append(", ");
            }
            s.append(self.index.columns[i].0.as_str());
            s.append(" ");
            s.append(self.index.columns[i].1.as_sql());
            proof {
                assert(cm[i as int] == (self.index.columns@[i as int].0@, self.index.columns@[
                    i as int].1));
                lemma_columns_text_snoc(cm, i as int);
                if i == 0 {
                    assert(s@ =~= header + columns_text(cm.take(1)));
                } else {
                    assert(columns_text(seq![cm[i as int]]) == column_text(cm[i as int]));
                    assert(s@ =~= header + columns_text(cm.take(i as int + 1)));
                }
            }
            i = i + 1;
        }
        proof {
            assert(cm.take(i as int) =~= cm);
        }
        s.append(")");
        proof {
            assert(s@ =~= create_index_text(self.index));
        }
        s
    }
}

} // verus!
