//! The columns of a table by name, each with the id it got when it was
//! first seen.

use vstd::prelude::*;

use crate::scalars::same_text;
use crate::schema::FieldType;

verus! {

/// What is known of a column: its type and its id.
#[derive(Debug, Clone, Copy, PartialEq, Eq, Structural)]
pub struct ColumnInfo {
    pub _type: FieldType,
    pub _id: usize,
}

/// A column with its name.
pub struct Column {
    name: String,
    info: ColumnInfo,
}

/// Columns by name. A column gets as its id the number of columns that were
/// there before it.
pub struct ColumnIndex {
    columns: Vec<Column>,
}

impl ColumnIndex {
    #[verifier::type_invariant]
    spec fn inv(&self) -> bool {
        &&& forall|i: int| 0 <= i < self.columns@.len() ==> (#[trigger] self.columns@[i]).info._id == i
        &&& forall|i: int, j: int|
            0 <= i < j < self.columns@.len() ==> (#[trigger] self.columns@[i]).name@ != (
            #[trigger] self.columns@[j]).name@
    }

    /// The names of the columns, in the order of their ids.
    pub closed spec fn names(&self) -> Seq<Seq<char>> {
        Seq::new(self.columns@.len(), |i: int| self.columns@[i].name@)
    }

    /// The types of the columns, in the order of their ids.
    pub closed spec fn types(&self) -> Seq<FieldType> {
        Seq::new(self.columns@.len(), |i: int| self.columns@[i].info._type)
    }

    /// An index without columns.
    pub fn new() -> (r: ColumnIndex)
        ensures
            r.names() == Seq::<Seq<char>>::empty(),
            r.types() == Seq::<FieldType>::empty(),
    {
        let r = ColumnIndex { columns: Vec::new() };
        assert(r.names() =~= Seq::<Seq<char>>::empty());
        assert(r.types() =~= Seq::<FieldType>::empty());
        r
    }

    /// Number of columns.
    pub fn len(&self) -> (n: usize)
        ensures
            n == self.names().len(),
            n == self.types().len(),
    {
        self.columns.len()
    }

    /// What is known of the column called `col_name`. A column that is not
    /// there yet is added with the given type and the next id; one that is
    /// there keeps its type and its id.
    pub fn get_or_insert_col(&mut self, col_name: String, _type: FieldType) -> (info: ColumnInfo)
        ensures
            old(self).names().contains(col_name@) ==> final(self).names() == old(self).names()
                && final(self).types() == old(self).types(),
            !old(self).names().contains(col_name@) ==> final(self).names() == old(
                self,
            ).names().push(col_name@) && final(self).types() == old(self).types().push(_type),
            info._id < final(self).names().len(),
            final(self).names()[info._id as int] == col_name@,
            final(self).types()[info._id as int] == info._type,
            final(self).names().len() == final(self).types().len(),
    {
        proof {
            use_type_invariant(&*self);
        }
        let ghost names = self.names();
        let mut i: usize = 0;
        while i < self.columns.len()
            invariant
                i <= self.columns@.len(),
                names == self.names(),
                *self == *old(self),
                forall|k: int|
                    0 <= k < self.columns@.len() ==> (#[trigger] self.columns@[k]).info._id == k,
                forall|a: int, b: int|
                    0 <= a < b < self.columns@.len() ==> (#[trigger] self.columns@[a]).name@ != (
                    #[trigger] self.columns@[b]).name@,
                forall|k: int| 0 <= k < i ==> names[k] != col_name@,
            decreases self.columns@.len() - i,
        {
            if same_text(self.columns[i].name.as_str(), col_name.as_str()) {
                assert(names[i as int] == col_name@);
                return self.columns[i].info;
            }
            i = i + 1;
        }
        let info = ColumnInfo { _type, _id: self.columns.len() };
        let ghost before = self.columns@;
        let mut columns: Vec<Column> = Vec::new();
        core::mem::swap(&mut columns, &mut self.columns);
        columns.push(Column { name: col_name, info });
        proof {
            assert forall|a: int, b: int| 0 <= a < b < columns@.len() implies (
            #[trigger] columns@[a]).name@ != (#[trigger] columns@[b]).name@ by {
                if b < before.len() {
                    assert(before[a].name@ != before[b].name@);
                } else {
                    assert(names[a] != col_name@);
                }
            }
        }
        self.columns = columns;
        assert(self.names() =~= names.push(col_name@));
        assert(self.types() =~= old(self).types().push(_type));
        info
    }
}

} // verus!
