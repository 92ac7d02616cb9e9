//! The tabular data model: named, typed columns of equal length, with the
//! cell values held as plain data. A host dataframe is converted to and
//! from this shape at the crate boundary.

use vstd::prelude::*;
use crate::jaccard::Similarity;

verus! {

/// A typed column: every cell is present or missing.
#[derive(Debug, Clone, PartialEq, Eq)]
pub enum Column {
    /// Unsigned 64-bit integer cells, the combinator's input type.
    Ints(Vec<Option<u64>>),
    /// List-of-integer cells, the similarity evaluator's input type.
    Lists(Vec<Option<Vec<Option<i64>>>>),
    /// Exact similarity ratios, the engine's output type.
    Ratios(Vec<Option<Similarity>>),
}

impl Column {
    /// The number of rows.
    pub open spec fn spec_len(&self) -> nat {
        match self {
            Column::Ints(v) => v@.len(),
            Column::Lists(v) => v@.len(),
            Column::Ratios(v) => v@.len(),
        }
    }

    /// The number of rows.
    pub fn len(&self) -> (r: usize)
        ensures
            r == self.spec_len(),
    {
        match self {
            Column::Ints(v) => v.len(),
            Column::Lists(v) => v.len(),
            Column::Ratios(v) => v.len(),
        }
    }
}

/// A column together with its name.
#[derive(Debug, Clone, PartialEq, Eq)]
pub struct NamedColumn {
    pub name: String,
    pub col: Column,
}

/// An ordered sequence of named columns, all of the table's height.
#[derive(Debug, Clone, PartialEq, Eq)]
pub struct Table {
    pub height: usize,
    pub cols: Vec<NamedColumn>,
}

/// The failure taxonomy: a requested column is absent, or present with the
/// wrong element type. Both name the offending column and abort the whole
/// call; no partial output is ever produced.
#[derive(Debug, Clone, PartialEq, Eq)]
pub enum EngineError {
    ColumnNotFound(String),
    TypeMismatch(String),
}

/// The index of the first column named `name`, scanning from index `i`.
pub open spec fn spec_find_from(cols: Seq<NamedColumn>, name: Seq<char>, i: int) -> Option<int>
    decreases cols.len() - i,
{
    if i < 0 || i >= cols.len() {
        None
    } else if cols[i].name@ == name {
        Some(i)
    } else {
        spec_find_from(cols, name, i + 1)
    }
}

/// A found index lies in bounds and carries the requested name.
pub proof fn lemma_find_from_some(cols: Seq<NamedColumn>, name: Seq<char>, i: int, j: int)
    requires
        spec_find_from(cols, name, i) == Some(j),
    ensures
        i <= j < cols.len(),
        cols[j].name@ == name,
    decreases cols.len() - i,
{
    if i < 0 || i >= cols.len() {
    } else if cols[i].name@ == name {
    } else {
        lemma_find_from_some(cols, name, i + 1, j);
    }
}

impl Table {
    /// Every column has exactly `height` rows.
    pub open spec fn wf(&self) -> bool {
        forall|i: int|
            0 <= i < self.cols@.len() ==> (#[trigger] self.cols@[i].col).spec_len()
                == self.height
    }

    /// The index of the first column named `name`, if any.
    pub open spec fn spec_find(&self, name: Seq<char>) -> Option<int> {
        spec_find_from(self.cols@, name, 0)
    }

    /// Decide well-formedness at run time, for callers that assemble a
    /// table from data whose shape no proof vouches for.
    pub fn is_well_formed(&self) -> (r: bool)
        ensures
            r == self.wf(),
    {
        let n = self.cols.len();
        let mut i: usize = 0;
        while i < n
            invariant
                n == self.cols@.len(),
                0 <= i <= n,
                forall|j: int|
                    0 <= j < i ==> (#[trigger] self.cols@[j].col).spec_len() == self.height,
            decreases n - i,
        {
            if self.cols[i].col.len() != self.height {
                return false;
            }
            i += 1;
        }
        true
    }

    /// Look up a column by name: the index of the first column whose name
    /// matches, or `None` when no column matches.
    pub fn find(&self, name: &String) -> (r: Option<usize>)
        ensures
            match r {
                Some(i) => self.spec_find(name@) == Some(i as int),
                None => self.spec_find(name@) is None,
            },
    {
        let n = self.cols.len();
        let mut i: usize = 0;
        while i < n
            invariant
                n == self.cols@.len(),
                0 <= i <= n,
                spec_find_from(self.cols@, name@, 0) == spec_find_from(self.cols@, name@, i as int),
        decreases n - i,
        {
            if self.cols[i].name == *name {
                return Some(i);
            }
            i += 1;
        }
        None
    }
}

} // verus!
