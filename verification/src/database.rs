//! The in-memory tabular store: a database of named datastores, each an
//! ordered sequence of named text columns.

use vstd::prelude::*;

verus! {

/// A collection of loaded datastores.
#[derive(Debug)]
pub struct Database {
    pub datastores: Vec<Datastore>,
}

/// One named table: where it came from and its columns.
#[derive(Debug)]
pub struct Datastore {
    pub name: String,
    pub path: String,
    pub columns: Vec<Column>,
}

/// One named column of text cells.
#[derive(Debug, Clone)]
pub struct Column {
    pub name: String,
    pub data: Vec<String>,
}

/// A column's name, as a character sequence.
pub open spec fn col_name(c: Column) -> Seq<char> {
    c.name@
}

/// A column's cells, as character sequences.
pub open spec fn col_data(c: Column) -> Seq<Seq<char>> {
    c.data.deep_view()
}

/// An exact copy of a vector of strings.
pub fn clone_strings(v: &Vec<String>) -> (r: Vec<String>)
    ensures
        r@ == v@,
{
    let mut r: Vec<String> = Vec::new();
    let mut k: usize = 0;
    while k < v.len()
        invariant
            k <= v.len(),
            r@ == v@.subrange(0, k as int),
        decreases v.len() - k,
    {
        r.push(v[k].clone());
        proof {
            assert(r@ =~= v@.subrange(0, k + 1));
        }
        k += 1;
    }
    proof {
        assert(v@.subrange(0, v@.len() as int) =~= v@);
    }
    r
}

/// Two column sequences hold the same names and the same cells.
pub open spec fn cols_match(a: Seq<Column>, b: Seq<Column>) -> bool {
    a.len() == b.len() && forall|i: int|
        0 <= i < a.len() ==> col_name(#[trigger] a[i]) == col_name(b[i]) && col_data(a[i])
            == col_data(b[i])
}

/// An exact copy of a column: same name, same cells.
pub fn clone_column(c: &Column) -> (r: Column)
    ensures
        col_name(r) == col_name(*c),
        col_data(r) == col_data(*c),
{
    Column { name: c.name.clone(), data: clone_strings(&c.data) }
}

/// An exact copy of a vector of columns.
pub fn clone_columns(v: &Vec<Column>) -> (r: Vec<Column>)
    ensures
        cols_match(r@, v@),
{
    let mut r: Vec<Column> = Vec::new();
    let mut k: usize = 0;
    while k < v.len()
        invariant
            k <= v.len(),
            r@.len() == k,
            forall|i: int|
                0 <= i < k ==> col_name(#[trigger] r@[i]) == col_name(v@[i]) && col_data(r@[i])
                    == col_data(v@[i]),
        decreases v.len() - k,
    {
        r.push(clone_column(&v[k]));
        k += 1;
    }
    r
}

} // verus!
