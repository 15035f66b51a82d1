//! Projection of a parsed query over an in-memory database: resolve the
//! query's source to a set of columns (recursively for nested sub-queries),
//! then pick each requested column by name.  Lookups that fail are explicit
//! errors, never aborts; when several columns share a name the first one
//! wins.

use vstd::prelude::*;

use crate::database::{
    clone_column, clone_columns, col_data, col_name, cols_match, Column, Database, Datastore,
};
use crate::parser::{DataSource, SelectExpression};

verus! {

/// A lookup failure while executing a query.
#[derive(Debug, PartialEq)]
pub enum QueryError {
    /// No datastore of this name is loaded.
    TableNotFound(String),
    /// The source has no column of this name.
    ColumnNotFound(String),
}

/// The abstraction of a `QueryError`.
pub enum QueryErrView {
    TableNotFound(Seq<char>),
    ColumnNotFound(Seq<char>),
}

impl View for QueryError {
    type V = QueryErrView;

    open spec fn view(&self) -> QueryErrView {
        match self {
            QueryError::TableNotFound(n) => QueryErrView::TableNotFound(n@),
            QueryError::ColumnNotFound(n) => QueryErrView::ColumnNotFound(n@),
        }
    }
}

/// The first datastore at or after `k` whose name is `nm`, or -1.
pub open spec fn find_store(stores: Seq<Datastore>, nm: Seq<char>, k: int) -> int
    decreases stores.len() - k,
{
    if !(0 <= k && k < stores.len()) {
        -1
    } else if stores[k].name@ == nm {
        k
    } else {
        find_store(stores, nm, k + 1)
    }
}

/// The first column at or after `k` whose name is `nm`, or -1.
pub open spec fn find_col(cols: Seq<Column>, nm: Seq<char>, k: int) -> int
    decreases cols.len() - k,
{
    if !(0 <= k && k < cols.len()) {
        -1
    } else if col_name(cols[k]) == nm {
        k
    } else {
        find_col(cols, nm, k + 1)
    }
}

/// Picking the requested columns from `k` on: each name takes the first
/// column bearing it, and the first name with no column is the error.
pub open spec fn spec_project(cols: Seq<Column>, names: Seq<String>, k: int) -> Result<
    Seq<Column>,
    QueryErrView,
>
    decreases names.len() - k,
{
    if !(0 <= k && k < names.len()) {
        Ok(Seq::<Column>::empty())
    } else {
        let c = find_col(cols, names[k]@, 0);
        if c >= 0 {
            match spec_project(cols, names, k + 1) {
                Ok(rest) => Ok(seq![cols[c]] + rest),
                Err(e) => Err(e),
            }
        } else {
            Err(QueryErrView::ColumnNotFound(names[k]@))
        }
    }
}

/// What executing a query yields over the given datastores: the source's
/// columns (a named datastore's, or recursively a sub-query's result),
/// projected to the requested names.
pub open spec fn spec_execute(e: SelectExpression, stores: Seq<Datastore>) -> Result<
    Seq<Column>,
    QueryErrView,
>
    decreases e,
{
    let colsr = match e.source {
        DataSource::Datastore { name } => {
            let t = find_store(stores, name@, 0);
            if t >= 0 {
                Ok(stores[t].columns@)
            } else {
                Err(QueryErrView::TableNotFound(name@))
            }
        },
        DataSource::SelectExpression(sub) => spec_execute(*sub, stores),
    };
    match colsr {
        Ok(cols) => spec_project(cols, e.columns@, 0),
        Err(err) => Err(err),
    }
}

/// A found column index is in range and bears the name.
proof fn lemma_find_col_valid(cols: Seq<Column>, nm: Seq<char>, k: int)
    ensures
        find_col(cols, nm, k) == -1 || (k <= find_col(cols, nm, k) < cols.len() && col_name(
            cols[find_col(cols, nm, k)],
        ) == nm),
    decreases cols.len() - k,
{
    if 0 <= k && k < cols.len() && col_name(cols[k]) != nm {
        lemma_find_col_valid(cols, nm, k + 1);
    }
}

/// Matching column sequences agree on where a name is first found.
proof fn lemma_find_col_match(a: Seq<Column>, b: Seq<Column>, nm: Seq<char>, k: int)
    requires
        cols_match(a, b),
    ensures
        find_col(a, nm, k) == find_col(b, nm, k),
    decreases a.len() - k,
{
    if 0 <= k && k < a.len() && col_name(a[k]) != nm {
        lemma_find_col_match(a, b, nm, k + 1);
    }
}

/// Matching column sequences project to matching results.
proof fn lemma_project_match(a: Seq<Column>, b: Seq<Column>, names: Seq<String>, k: int)
    requires
        cols_match(a, b),
    ensures
        match spec_project(a, names, k) {
            Ok(ra) => spec_project(b, names, k) matches Ok(rb) && cols_match(ra, rb),
            Err(e) => spec_project(b, names, k) matches Err(eb) && e == eb,
        },
    decreases names.len() - k,
{
    if !(0 <= k && k < names.len()) {
    } else {
        lemma_find_col_match(a, b, names[k]@, 0);
        lemma_project_match(a, b, names, k + 1);
        let c = find_col(a, names[k]@, 0);
        if c >= 0 {
            lemma_find_col_valid(a, names[k]@, 0);
            match spec_project(a, names, k + 1) {
                Ok(ra) => {
                    let rb = spec_project(b, names, k + 1)->Ok_0;
                    let wa = seq![a[c]] + ra;
                    let wb = seq![b[c]] + rb;
                    assert forall|i: int| 0 <= i < wa.len() implies col_name(#[trigger] wa[i])
                        == col_name(wb[i]) && col_data(wa[i]) == col_data(wb[i]) by {
                        if i > 0 {
                            assert(wa[i] == ra[i - 1]);
                            assert(wb[i] == rb[i - 1]);
                        }
                    }
                    assert(cols_match(wa, wb));
                },
                Err(_) => {},
            }
        }
    }
}

fn find_store_exec(stores: &Vec<Datastore>, nm: &String, k: usize) -> (r: Option<usize>)
    requires
        k <= stores.len(),
    ensures
        match r {
            Some(t) => t < stores.len() && t as int == find_store(stores@, nm@, k as int),
            None => find_store(stores@, nm@, k as int) == -1,
        },
    decreases stores.len() - k,
{
    if k >= stores.len() {
        None
    } else if stores[k].name == *nm {
        Some(k)
    } else {
        find_store_exec(stores, nm, k + 1)
    }
}

fn find_col_exec(cols: &Vec<Column>, nm: &String, k: usize) -> (r: Option<usize>)
    requires
        k <= cols.len(),
    ensures
        match r {
            Some(c) => c < cols.len() && c as int == find_col(cols@, nm@, k as int),
            None => find_col(cols@, nm@, k as int) == -1,
        },
    decreases cols.len() - k,
{
    if k >= cols.len() {
        None
    } else if cols[k].name == *nm {
        Some(k)
    } else {
        find_col_exec(cols, nm, k + 1)
    }
}

fn project_exec(cols: &Vec<Column>, names: &Vec<String>, k: usize) -> (r: Result<
    Vec<Column>,
    QueryError,
>)
    requires
        k <= names.len(),
    ensures
        match r {
            Ok(out) => spec_project(cols@, names@, k as int) matches Ok(sc) && cols_match(
                out@,
                sc,
            ),
            Err(e) => spec_project(cols@, names@, k as int) matches Err(ev) && e@ == ev,
        },
    decreases names.len() - k,
{
    if k >= names.len() {
        let out: Vec<Column> = Vec::new();
        proof {
            assert(cols_match(out@, Seq::<Column>::empty()));
        }
        Ok(out)
    } else {
        match find_col_exec(cols, &names[k], 0) {
            Some(c) => {
                let mut v: Vec<Column> = Vec::new();
                v.push(clone_column(&cols[c]));
                match project_exec(cols, names, k + 1) {
                    Ok(mut rest) => {
                        let ghost sc = spec_project(cols@, names@, k as int + 1)->Ok_0;
                        let ghost v0 = v@;
                        let ghost r0 = rest@;
                        v.append(&mut rest);
                        proof {
                            assert(v@ == v0 + r0);
                            let whole = seq![cols@[c as int]] + sc;
                            assert forall|i: int| 0 <= i < v@.len() implies col_name(
                                #[trigger] v@[i],
                            ) == col_name(whole[i]) && col_data(v@[i]) == col_data(whole[i]) by {
                                if i > 0 {
                                    assert(v@[i] == r0[i - 1]);
                                    assert(whole[i] == sc[i - 1]);
                                }
                            }
                            assert(cols_match(v@, whole));
                        }
                        Ok(v)
                    },
                    Err(e) => Err(e),
                }
            },
            None => Err(QueryError::ColumnNotFound(names[k].clone())),
        }
    }
}

/// Executes a parsed query over a database: resolves the data source, then
/// returns a copy of each requested column, in request order.  A missing
/// table or column is reported by name.
pub fn execute(expression: SelectExpression, db: Database) -> (r: Result<Vec<Column>, QueryError>)
    ensures
        match r {
            Ok(out) => spec_execute(expression, db.datastores@) matches Ok(sc) && cols_match(
                out@,
                sc,
            ),
            Err(e) => spec_execute(expression, db.datastores@) matches Err(ev) && e@ == ev,
        },
    decreases expression,
{
    let ghost e0 = expression;
    let ghost stores = db.datastores@;
    let names = expression.columns;
    let source = expression.source;
    let cols = match source {
        DataSource::Datastore { name } => {
            match find_store_exec(&db.datastores, &name, 0) {
                Some(t) => clone_columns(&db.datastores[t].columns),
                None => {
                    return Err(QueryError::TableNotFound(name));
                },
            }
        },
        DataSource::SelectExpression(sub) => {
            proof {
                assert(decreases_to!(e0 => e0.source));
                assert(decreases_to!(e0.source => *sub));
            }
            match execute(*sub, db) {
                Ok(c) => c,
                Err(e) => {
                    return Err(e);
                },
            }
        },
    };
    proof {
        match e0.source {
            DataSource::Datastore { name } => {
                let t = find_store(stores, name@, 0);
                lemma_project_match(cols@, stores[t].columns@, names@, 0);
            },
            DataSource::SelectExpression(sub) => {
                let inner = spec_execute(*sub, stores)->Ok_0;
                lemma_project_match(cols@, inner, names@, 0);
            },
        }
    }
    project_exec(&cols, &names, 0)
}

} // verus!
