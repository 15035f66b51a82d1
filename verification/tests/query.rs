use simplidb::database::{Column, Database, Datastore};
use simplidb::parser::{parse, DataSource, SelectExpression};
use simplidb::query::{execute, QueryError};

fn demo_db() -> Database {
    Database {
        datastores: vec![Datastore {
            name: "employee".to_owned(),
            path: "employee.csv".to_owned(),
            columns: vec![
                Column {
                    name: "name".to_owned(),
                    data: vec!["ada".to_owned(), "grace".to_owned()],
                },
                Column {
                    name: "role".to_owned(),
                    data: vec!["engineer".to_owned(), "admiral".to_owned()],
                },
            ],
        }],
    }
}

#[test]
fn test_execute_projects_column() {
    let expr = parse("SELECT role FROM employee").unwrap();
    let result = execute(expr, demo_db()).unwrap();
    assert_eq!(result.len(), 1);
    assert_eq!(result[0].name, "role");
    assert_eq!(
        result[0].data,
        vec!["engineer".to_owned(), "admiral".to_owned()]
    );
}

#[test]
fn test_execute_nested_select() {
    let expr = SelectExpression {
        columns: vec!["name".to_owned()],
        source: DataSource::SelectExpression(Box::new(SelectExpression {
            columns: vec!["name".to_owned(), "role".to_owned()],
            source: DataSource::Datastore {
                name: "employee".to_owned(),
            },
        })),
    };
    let result = execute(expr, demo_db()).unwrap();
    assert_eq!(result.len(), 1);
    assert_eq!(result[0].name, "name");
    assert_eq!(result[0].data, vec!["ada".to_owned(), "grace".to_owned()]);
}

#[test]
fn test_execute_table_not_found() {
    let expr = parse("SELECT name FROM missing").unwrap();
    assert_eq!(
        execute(expr, demo_db()).unwrap_err(),
        QueryError::TableNotFound("missing".to_owned())
    );
}

#[test]
fn test_execute_column_not_found() {
    let expr = parse("SELECT age FROM employee").unwrap();
    assert_eq!(
        execute(expr, demo_db()).unwrap_err(),
        QueryError::ColumnNotFound("age".to_owned())
    );
}

#[test]
fn test_execute_duplicate_column_takes_first() {
    let db = Database {
        datastores: vec![Datastore {
            name: "t".to_owned(),
            path: "t.csv".to_owned(),
            columns: vec![
                Column {
                    name: "c".to_owned(),
                    data: vec!["first".to_owned()],
                },
                Column {
                    name: "c".to_owned(),
                    data: vec!["second".to_owned()],
                },
            ],
        }],
    };
    let expr = parse("SELECT c FROM t").unwrap();
    let result = execute(expr, db).unwrap();
    assert_eq!(result.len(), 1);
    assert_eq!(result[0].data, vec!["first".to_owned()]);
}
