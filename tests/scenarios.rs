use simple_db::{Database, DataType, DbError, StorageType, TypeError};

fn memory_db() -> Database {
    Database::new(StorageType::Memory)
}

fn run(db: &mut Database, sql: &str) -> String {
    match db.execute_sql(sql) {
        Ok(text) => text,
        Err(e) => panic!("{} failed: {:?}", sql, e),
    }
}

#[test]
fn duplicate_primary_key_is_refused() {
    let mut db = memory_db();
    run(&mut db, "CREATE TABLE t(id INT PRIMARY KEY, n VARCHAR(10));");
    run(&mut db, "INSERT INTO t VALUES (1,'a');");
    let err = db.execute_sql("INSERT INTO t VALUES (1,'b');").unwrap_err();
    assert!(matches!(err, DbError::TypeError(TypeError::PrimaryKeyViolation(_))));
    assert_eq!(db.format_error(&err), "Error: Duplicate entry '1' for key 'PRIMARY'");
    let out = run(&mut db, "SELECT * FROM t;");
    assert_eq!(out, "| id  | n   |\n| --- | --- |\n| 1   | a   |\n");
}

#[test]
fn insert_with_named_columns_maps_by_name() {
    let mut db = memory_db();
    run(&mut db, "CREATE TABLE b(id INT PRIMARY KEY, name VARCHAR(50), price INT NOT NULL);");
    run(&mut db, "INSERT INTO b(id,name,price) VALUES (1,'SETI',32);");
    run(&mut db, "INSERT INTO b(price,id,name) VALUES (66,2,'Rust');");
    let out = run(&mut db, "SELECT * FROM b WHERE name IS NOT NULL;");
    assert_eq!(
        out,
        "| id  | name | price |\n| --- | ---- | ----- |\n| 1   | SETI | 32    |\n| 2   | Rust | 66    |\n"
    );
}

#[test]
fn select_without_from_evaluates_expression() {
    let mut db = memory_db();
    let out = run(&mut db, "SELECT 1+2*3;");
    assert_eq!(out, "| 1+2*3 |\n| ----- |\n| 7     |\n");
}

#[test]
fn order_by_descending() {
    let mut db = memory_db();
    run(&mut db, "CREATE TABLE p(id INT PRIMARY KEY, v INT);");
    run(&mut db, "INSERT INTO p VALUES (3,30),(1,10),(2,20);");
    let out = run(&mut db, "SELECT * FROM p ORDER BY v DESC;");
    assert_eq!(out, "| id  | v   |\n| --- | --- |\n| 3   | 30  |\n| 2   | 20  |\n| 1   | 10  |\n");
}

#[test]
fn null_into_not_null_column_is_refused() {
    let mut db = memory_db();
    run(&mut db, "CREATE TABLE users(id INT, name VARCHAR(20) NOT NULL, age INT);");
    let err = db.execute_sql("INSERT INTO users VALUES (1,NULL,25);").unwrap_err();
    assert!(matches!(err, DbError::TypeError(TypeError::NullValue(ref c)) if c == "name"));
    assert_eq!(db.format_error(&err), "Error: Field 'name' doesn't have a default value");
    let table = db.get_table("users").unwrap().unwrap();
    assert_eq!(table.rows.len(), 0);
}

#[test]
fn rows_keep_table_invariants_after_statements() {
    let mut db = memory_db();
    run(&mut db, "CREATE TABLE t(id INT PRIMARY KEY, n VARCHAR(3) NOT NULL, x INT);");
    run(&mut db, "INSERT INTO t VALUES (1,'ab',NULL),(2,'abc',5);");
    assert!(db.execute_sql("INSERT INTO t VALUES (3,'abcd',1);").is_err());
    assert!(db.execute_sql("INSERT INTO t VALUES (NULL,'a',1);").is_err());
    assert!(db.execute_sql("UPDATE t SET n = 'toolong' WHERE id = 1;").is_err());
    assert!(db.execute_sql("UPDATE t SET id = 2 WHERE id = 1;").is_err());
    run(&mut db, "UPDATE t SET x = 7 WHERE id = 1;");
    let table = db.get_table("t").unwrap().unwrap();
    assert_eq!(table.rows.len(), 2);
    for row in &table.rows {
        assert_eq!(row.len(), table.columns.len());
        assert!(!matches!(row[0], DataType::Null));
        match &row[1] {
            DataType::Varchar(s) => assert!(s.chars().count() <= 3),
            other => panic!("unexpected cell {:?}", other),
        }
    }
    assert!(matches!(table.rows[0][0], DataType::Int(1)));
    assert!(matches!(table.rows[0][2], DataType::Int(7)));
    assert!(matches!(table.rows[1][0], DataType::Int(2)));
}

#[test]
fn create_existing_table_fails_and_keeps_catalog() {
    let mut db = memory_db();
    run(&mut db, "CREATE TABLE t(a INT);");
    run(&mut db, "INSERT INTO t VALUES (1);");
    let err = db.execute_sql("CREATE TABLE t(b VARCHAR(5));").unwrap_err();
    assert!(matches!(err, DbError::TableError(_)));
    assert_eq!(db.list_tables().unwrap(), vec!["t".to_string()]);
    let table = db.get_table("t").unwrap().unwrap();
    assert_eq!(table.columns.len(), 1);
    assert_eq!(table.columns[0].name, "a");
    assert_eq!(table.rows.len(), 1);
}

#[test]
fn failed_insert_keeps_row_count() {
    let mut db = memory_db();
    run(&mut db, "CREATE TABLE t(id INT PRIMARY KEY, n VARCHAR(2));");
    run(&mut db, "INSERT INTO t VALUES (1,'a');");
    assert!(db.execute_sql("INSERT INTO t VALUES ('x','a');").is_err());
    assert!(db.execute_sql("INSERT INTO t VALUES (1,'b');").is_err());
    assert!(db.execute_sql("INSERT INTO t VALUES (NULL,'b');").is_err());
    assert!(db.execute_sql("INSERT INTO t VALUES (2);").is_err());
    assert_eq!(db.get_table("t").unwrap().unwrap().rows.len(), 1);
}

#[test]
fn multi_row_insert_keeps_rows_before_failure() {
    let mut db = memory_db();
    run(&mut db, "CREATE TABLE t(id INT PRIMARY KEY);");
    assert!(db.execute_sql("INSERT INTO t VALUES (1),(2),(1),(3);").is_err());
    assert_eq!(db.get_table("t").unwrap().unwrap().rows.len(), 2);
}

#[test]
fn delete_without_where_empties_table() {
    let mut db = memory_db();
    run(&mut db, "CREATE TABLE t(a INT, b VARCHAR(4));");
    run(&mut db, "INSERT INTO t VALUES (1,'x'),(2,'y');");
    run(&mut db, "DELETE FROM t;");
    let table = db.get_table("t").unwrap().unwrap();
    assert_eq!(table.rows.len(), 0);
    assert_eq!(table.columns.len(), 2);
    assert_eq!(table.columns[1].name, "b");
}

#[test]
fn delete_with_where_keeps_order_of_survivors() {
    let mut db = memory_db();
    run(&mut db, "CREATE TABLE t(a INT);");
    run(&mut db, "INSERT INTO t VALUES (1),(2),(3),(4);");
    run(&mut db, "DELETE FROM t WHERE a = 2 OR a = 3;");
    let out = run(&mut db, "SELECT a FROM t;");
    assert_eq!(out, "| a   |\n| --- |\n| 1   |\n| 4   |\n");
}

#[test]
fn create_then_drop_restores_catalog() {
    let mut db = memory_db();
    run(&mut db, "CREATE TABLE keep(a INT);");
    run(&mut db, "CREATE TABLE tmp(a INT);");
    run(&mut db, "DROP TABLE tmp;");
    assert_eq!(db.list_tables().unwrap(), vec!["keep".to_string()]);
}

#[test]
fn and_does_not_evaluate_right_side_when_left_is_false() {
    let mut db = memory_db();
    run(&mut db, "CREATE TABLE s(a INT);");
    run(&mut db, "INSERT INTO s VALUES (0);");
    assert_eq!(run(&mut db, "SELECT * FROM s WHERE a = 1 AND 1/a = 1;"), "");
    assert_eq!(run(&mut db, "SELECT * FROM s WHERE a = 0 OR 1/a = 1;"), "| a   |\n| --- |\n| 0   |\n");
    assert!(db.execute_sql("SELECT * FROM s WHERE 1/a = 1;").is_err());
}
